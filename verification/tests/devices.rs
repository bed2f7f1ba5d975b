use disk_watch::devices::{
    controller, diskseq_from, is_ata_port, nonzero_wwn, parse, parse_at, Device, InventoryError,
    Kind,
};

fn device(model: &str, serial: &str, wwn: &str, path: &str) -> Device {
    Device {
        path: path.to_string(),
        model: model.to_string(),
        serial: serial.to_string(),
        wwn: wwn.to_string(),
        kind: Kind::Hdd,
        aliases: vec![],
        diskseq: None,
        discovered_at: 0,
        wd_usb: false,
    }
}

#[test]
fn physical_and_nvme_controller_dedup() {
    let d = parse(br#"{"blockdevices":[{"name":"/dev/sda","type":"disk","rota":true},{"name":"/dev/sda1","type":"part"},{"name":"/dev/loop0","type":"disk"},{"name":"/dev/dm-0","type":"disk"},{"name":"/dev/nvme0n1","type":"disk"},{"name":"/dev/nvme0n2","type":"disk"}]}"#).unwrap();
    assert_eq!(d.len(), 2);
    assert_eq!(d[0].path, "/dev/nvme0");
    assert!(d[0].aliases.contains(&"nvme0n2".to_string()));
}

#[test]
fn an_inventory_row_gives_every_field() {
    let d = parse_at(
        br#"{"blockdevices":[{"name":"/dev/sdb","type":"disk","model":" Elements 25A3 ","serial":"575836","wwn":" 0x50014ee2 ","rota":1,"tran":"usb","vendor":"WD      "},{"name":"/dev/nvme1n1","type":"disk","wwn":"eui.0025","rota":false}]}"#,
        77,
    )
    .unwrap();
    assert_eq!(d.len(), 2);
    assert_eq!(d[0].path, "/dev/nvme1");
    assert_eq!(d[0].kind, Kind::Nvme);
    assert_eq!(d[0].wwn, "");
    assert_eq!(d[0].aliases, vec!["nvme1n1".to_string(), "nvme1".to_string()]);
    assert_eq!(d[1].path, "/dev/sdb");
    assert_eq!(d[1].model, "Elements 25A3");
    assert_eq!(d[1].serial, "575836");
    assert_eq!(d[1].wwn, "0x50014ee2");
    assert_eq!(d[1].kind, Kind::Hdd);
    assert_eq!(d[1].aliases, vec!["sdb".to_string()]);
    assert_eq!(d[1].diskseq, None);
    assert_eq!(d[1].discovered_at, 77);
    assert!(d[1].wd_usb);
}

#[test]
fn an_inventory_that_cannot_be_read_is_an_error() {
    assert!(matches!(parse_at(b"{", 0), Err(InventoryError::Json(_))));
    let e = parse_at(b"{}", 0).unwrap_err();
    assert!(matches!(e, InventoryError::NoDevices));
    assert_eq!(e.message(), "lsblk missing blockdevices");
    let e = parse_at(b"{", 0).unwrap_err();
    assert_eq!(
        e.message(),
        serde_json::from_slice::<serde_json::Value>(b"{")
            .unwrap_err()
            .to_string()
    );
}

#[test]
fn only_disks_directly_under_dev_are_listed() {
    let d = parse_at(
        br#"{"blockdevices":[{"name":"/dev/mapper/x","type":"disk"},{"name":"sda","type":"disk"},{"name":"/dev/zram0","type":"disk"},{"name":"/dev/ram0","type":"disk"},{"name":"/dev/md0","type":"disk"},{"name":"/dev/sr0","type":"rom"},{"name":"/dev/nvme0c0n1","type":"disk"}]}"#,
        0,
    )
    .unwrap();
    assert_eq!(d.len(), 1);
    assert_eq!(d[0].path, "/dev/nvme0c0n1");
    assert_eq!(d[0].kind, Kind::Ssd);
}

#[test]
fn controllers_of_nvme_names() {
    assert_eq!(controller("nvme0n1"), Some("nvme0"));
    assert_eq!(controller("nvme12"), Some("nvme12"));
    assert_eq!(controller("nvme"), None);
    assert_eq!(controller("nvmen1"), None);
    assert_eq!(controller("nvme0p1"), None);
    assert_eq!(controller("sda"), None);
}

#[test]
fn wwns_that_identify_something() {
    assert_eq!(nonzero_wwn(" 0x5000 "), Some("0x5000"));
    assert_eq!(nonzero_wwn("00:00-00 1"), Some("00:00-00 1"));
    assert_eq!(nonzero_wwn("0x"), None);
    assert_eq!(nonzero_wwn(""), None);
    assert_eq!(nonzero_wwn("x"), Some("x"));
}

#[test]
fn keys_name_the_strongest_identity() {
    assert_eq!(device("M", "S", " 0x50 ", "/dev/sda").key(), "wwn:0x50");
    assert_eq!(device("Модель", "S", "", "/dev/sda").key(), "serial:12:Модель:S");
    assert_eq!(device("M", "", "0x0", "/dev/sda").key(), "path:/dev/sda");
    assert_ne!(
        device("A:1", "B", "", "").key(),
        device("A", "1:B", "", "").key()
    );
}

#[test]
fn identity_is_symmetric_and_does_not_depend_on_the_path() {
    let a = device("M", "S", "50", "/dev/sda");
    let b = device("", "", "50", "/dev/sdb");
    let c = device("M", "T", "50", "/dev/sda");
    let d = device("M", "S", "", "/dev/sdd");
    assert!(a.same_identity(&b) && b.same_identity(&a));
    assert!(!a.same_identity(&c) && !c.same_identity(&a));
    assert!(a.same_identity(&d) && d.same_identity(&a));
    let nameless = device("M", "", "", "/dev/sda");
    assert!(!nameless.same_identity(&nameless));
}

#[test]
fn serial_numbers_behind_a_western_digital_bridge() {
    let mut d = device("Elements", "575844313233", "", "/dev/sdb");
    assert!(d.matches_smart_serial("575844313233"));
    assert!(!d.matches_smart_serial("WD-WXD123"));
    d.wd_usb = true;
    assert!(d.matches_smart_serial("WD-WXD123"));
    assert!(d.matches_smart_serial("WXD123"));
    assert!(!d.matches_smart_serial("WXD124"));
    d.serial = "WXD123".to_string();
    assert!(d.matches_smart_serial("WD-WXD123"));
    d.serial = "00".to_string();
    assert!(!d.matches_smart_serial("WD-00"));
    d.serial = "WD-".to_string();
    assert!(!d.matches_smart_serial(""));
    d.serial = "5758443".to_string();
    assert!(d.matches_smart_serial("WD-5758443"));
}

#[test]
fn names_in_sysfs() {
    assert!(is_ata_port("ata3"));
    assert!(!is_ata_port("ata"));
    assert!(!is_ata_port("ata3x"));
    assert!(!is_ata_port("host3"));
    assert_eq!(diskseq_from(" 17\n"), Some(17));
    assert_eq!(diskseq_from("x"), None);
    let mut d = device("M", "S", "", "/dev/nvme0");
    d.aliases = vec!["ata1".to_string(), "nvme0".to_string(), "nvme0n1".to_string()];
    assert_eq!(d.block_alias(), Some("nvme0n1"));
    d.add_aliases(&vec![
        "nvme0n1p2".to_string(),
        "ata1".to_string(),
        "nvme0n1p1".to_string(),
    ]);
    assert_eq!(
        d.aliases,
        vec![
            "ata1".to_string(),
            "nvme0".to_string(),
            "nvme0n1".to_string(),
            "nvme0n1p1".to_string(),
            "nvme0n1p2".to_string()
        ]
    );
    d.aliases = vec!["ata1".to_string()];
    assert_eq!(d.block_alias(), None);
}
