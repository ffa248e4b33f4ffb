use driver_updater::hardware::format_driver_date;
use driver_updater::hardware::{device_listed_before, DeviceDriver};
use driver_updater::hardware::{
    class_display_name, collect_devices, parse_wmi_date, should_skip_entity, should_skip_id,
    string_or_vec, DeviceStatus, DriverDate, PnPEntity, PnPSignedDriver, ScanError, StringOrVec,
};

fn s(x: &str) -> Option<String> {
    Some(x.to_string())
}

fn entity(id: Option<&str>, name: Option<&str>, manufacturer: Option<&str>, class: Option<&str>) -> PnPEntity {
    PnPEntity {
        device_id: id.map(String::from),
        name: name.map(String::from),
        manufacturer: manufacturer.map(String::from),
        pnp_class: class.map(String::from),
    }
}

fn signed(id: Option<&str>, name: Option<&str>, class: Option<&str>) -> PnPSignedDriver {
    PnPSignedDriver {
        device_id: id.map(String::from),
        device_name: name.map(String::from),
        driver_version: s("1.2.3"),
        driver_date: s("20230115083000.000000-000"),
        manufacturer: None,
        device_class: class.map(String::from),
        hardware_id: vec!["PCI\\VEN_10DE&DEV_2484".to_string()],
        inf_name: s("oem12.inf"),
    }
}

#[test]
fn skipped_identifiers() {
    assert!(should_skip_id("SWD\\PRINTENUM\\{123}"));
    assert!(should_skip_id("SW\\{abc}"));
    assert!(should_skip_id("ACPI\\ROOT\\0"));
    assert!(should_skip_id("HTREE\\ROOT\\0"));
    assert!(should_skip_id("DISPLAY\\DEFAULT_MONITOR\\1"));
    assert!(!should_skip_id("PCI\\VEN_8086&DEV_1234"));
    assert!(!should_skip_id("USB\\SWD\\X"));
    assert!(!should_skip_id(""));
}

#[test]
fn skipped_entities() {
    assert!(should_skip_entity(&entity(None, s("x").as_deref(), None, None)));
    assert!(should_skip_entity(&entity(Some("SW\\x"), None, None, None)));
    assert!(!should_skip_entity(&entity(Some("PCI\\x"), None, None, None)));
}

#[test]
fn class_names_have_dutch_labels() {
    assert_eq!(class_display_name("Display"), "Grafische kaart");
    assert_eq!(class_display_name("DISPLAY"), "Grafische kaart");
    assert_eq!(class_display_name("Net"), "Netwerk");
    assert_eq!(class_display_name("MEDIA"), "Audio");
    assert_eq!(class_display_name("HDC"), "Opslag");
    assert_eq!(class_display_name("SCSIAdapter"), "Opslag");
    assert_eq!(class_display_name("PrintQueue"), "Printer");
    assert_eq!(class_display_name("Biometric"), "Biometrie");
    assert_eq!(class_display_name("USB"), "USB");
    assert_eq!(class_display_name("Ports"), "Ports");
    assert_eq!(class_display_name("display"), "display");
}

#[test]
fn class_names_twice_is_once() {
    for c in ["Display", "Net", "Media", "Keyboard", "Mouse", "Biometric", "Camera", "Other", ""] {
        let once = class_display_name(c);
        assert_eq!(class_display_name(once), once);
    }
}

#[test]
fn wmi_dates() {
    assert_eq!(
        parse_wmi_date(Some("20230115083000.000000-000")),
        Some(DriverDate { year: 2023, month: 1, day: 15, hour: 8, minute: 30, second: 0 })
    );
    assert_eq!(
        parse_wmi_date(Some("  20061231235959  ")),
        Some(DriverDate { year: 2006, month: 12, day: 31, hour: 23, minute: 59, second: 59 })
    );
    assert_eq!(parse_wmi_date(Some("2023011508300")), None);
    assert_eq!(parse_wmi_date(Some("")), None);
    assert_eq!(parse_wmi_date(Some("   ")), None);
    assert_eq!(parse_wmi_date(Some("20231315083000")), None);
    assert_eq!(parse_wmi_date(Some("not a date at all")), None);
    assert_eq!(parse_wmi_date(None), None);
}

#[test]
fn hardware_id_values() {
    assert_eq!(string_or_vec(Some(StringOrVec::One("PCI\\A".to_string()))), vec!["PCI\\A".to_string()]);
    assert!(string_or_vec(Some(StringOrVec::One(String::new()))).is_empty());
    assert_eq!(
        string_or_vec(Some(StringOrVec::Many(vec!["a".to_string(), "b".to_string()]))),
        vec!["a".to_string(), "b".to_string()]
    );
    assert!(string_or_vec(None).is_empty());
}

#[test]
fn inventory_from_both_tables() {
    let entities = vec![
        entity(Some("PCI\\GPU"), Some("GPU entity"), Some("NVIDIA"), Some("Display")),
        entity(Some("USB\\MOUSE"), None, None, Some("Mouse")),
        entity(Some("USB\\KBD"), Some("Keyboard"), Some("Logi"), None),
        entity(Some("SWD\\X"), Some("Soft"), None, Some("Software")),
        entity(None, Some("Anonymous"), None, None),
        entity(Some("USB\\KBD"), Some("Keyboard 2"), Some("Logitech"), Some("Keyboard")),
    ];
    let signed_rows = vec![
        signed(Some("PCI\\GPU"), Some(""), None),
        signed(Some("ROOT\\X"), Some("Root"), Some("System")),
        signed(None, Some("No id"), Some("System")),
        signed(Some("PCI\\NET"), Some("Ethernet"), Some("Net")),
    ];
    let devices = collect_devices(entities, signed_rows).unwrap();
    let listed: Vec<(&str, &str, &str)> = devices
        .iter()
        .map(|d| (d.device_class.as_str(), d.name.as_str(), d.device_id.as_str()))
        .collect();
    assert_eq!(
        listed,
        vec![
            ("Display", "GPU entity", "PCI\\GPU"),
            ("Keyboard", "Keyboard 2", "USB\\KBD"),
            ("Mouse", "Onbekend apparaat", "USB\\MOUSE"),
            ("Net", "Ethernet", "PCI\\NET"),
        ]
    );
    let gpu = &devices[0];
    assert_eq!(gpu.manufacturer, "NVIDIA");
    assert_eq!(gpu.driver_version, "1.2.3");
    assert_eq!(gpu.inf_name, "oem12.inf");
    assert_eq!(gpu.hardware_ids, vec!["PCI\\VEN_10DE&DEV_2484".to_string()]);
    assert_eq!(
        gpu.driver_date,
        Some(DriverDate { year: 2023, month: 1, day: 15, hour: 8, minute: 30, second: 0 })
    );
    assert_eq!(gpu.status, DeviceStatus::Unknown);
    assert_eq!(devices[1].manufacturer, "Logitech");
    assert!(devices[2].manufacturer.is_empty());
    assert!(devices[2].hardware_ids.is_empty());
    assert_eq!(devices[3].manufacturer, "");
}

#[test]
fn inventory_defaults_and_ties() {
    let signed_rows = vec![
        signed(Some("PCI\\B"), Some("Same"), Some("Net")),
        signed(Some("PCI\\A"), Some("Same"), Some("Net")),
        signed(Some("PCI\\C"), None, None),
    ];
    let devices = collect_devices(vec![], signed_rows).unwrap();
    let ids: Vec<&str> = devices.iter().map(|d| d.device_id.as_str()).collect();
    assert_eq!(ids, vec!["PCI\\B", "PCI\\A", "PCI\\C"]);
    assert_eq!(devices[2].name, "Onbekend apparaat");
    assert_eq!(devices[2].device_class, "Overig");
}

#[test]
fn inventory_is_sorted_by_class_then_name() {
    let signed_rows: Vec<PnPSignedDriver> = [("b", "Zeta"), ("a", "Beta"), ("b", "Alpha"), ("A", "x"), ("a", "Alpha")]
        .iter()
        .enumerate()
        .map(|(i, (c, n))| signed(Some(&format!("PCI\\{i}")), Some(n), Some(c)))
        .collect();
    let devices = collect_devices(vec![], signed_rows).unwrap();
    for w in devices.windows(2) {
        assert!((w[0].device_class.as_str(), w[0].name.as_str()) <= (w[1].device_class.as_str(), w[1].name.as_str()));
    }
    assert_eq!(devices.len(), 5);
}

#[test]
fn no_hardware_is_an_error() {
    assert_eq!(collect_devices(vec![], vec![]).unwrap_err(), ScanError::NoHardware);
    let only_skipped = vec![entity(Some("HTREE\\ROOT\\0"), None, None, None)];
    assert_eq!(collect_devices(only_skipped, vec![signed(None, None, None)]).unwrap_err(), ScanError::NoHardware);
}

#[test]
fn listing_order_of_two_devices() {
    let d = |class: &str, name: &str| DeviceDriver {
        device_id: String::new(),
        name: name.to_string(),
        manufacturer: String::new(),
        device_class: class.to_string(),
        driver_version: String::new(),
        driver_date: None,
        hardware_ids: vec![],
        inf_name: String::new(),
        status: DeviceStatus::Unknown,
        update_title: None,
        update_id: None,
    };
    assert!(device_listed_before(&d("Display", "Z"), &d("Net", "A")));
    assert!(device_listed_before(&d("Net", "A"), &d("Net", "B")));
    assert!(!device_listed_before(&d("Net", "B"), &d("Net", "A")));
    assert!(!device_listed_before(&d("Net", "A"), &d("Net", "A")));
    assert!(!device_listed_before(&d("Net", "A"), &d("Display", "Z")));
}

#[test]
fn inventory_keeps_every_device_once() {
    let entities = vec![
        entity(Some("USB\\1"), Some("b"), None, Some("X")),
        entity(Some("USB\\2"), Some("a"), None, Some("X")),
        entity(Some("USB\\3"), Some("c"), None, Some("A")),
    ];
    let devices = collect_devices(entities, vec![]).unwrap();
    let mut ids: Vec<&str> = devices.iter().map(|d| d.device_id.as_str()).collect();
    assert_eq!(ids, vec!["USB\\3", "USB\\2", "USB\\1"]);
    ids.sort();
    assert_eq!(ids, vec!["USB\\1", "USB\\2", "USB\\3"]);
}

#[test]
fn date_cut_points() {
    use_cuttable();
}

fn use_cuttable() {
    assert!(driver_updater::hardware::wmi_date_is_cuttable("20230115083000.000000-000"));
    assert!(driver_updater::hardware::wmi_date_is_cuttable("short"));
    assert!(driver_updater::hardware::wmi_date_is_cuttable("  202301150830é  "));
    assert!(!driver_updater::hardware::wmi_date_is_cuttable("  2023011508300é  "));
    assert!(!driver_updater::hardware::wmi_date_is_cuttable("2023011508300é0"));
    assert!(driver_updater::hardware::wmi_date_is_cuttable("20230115083000é"));
}

#[test]
fn driver_dates_as_shown() {
    use_date_text();
}

fn use_date_text() {
    let d = |year, month, day| DriverDate { year, month, day, hour: 0, minute: 0, second: 0 };
    assert_eq!(format_driver_date(d(2021, 3, 5)), "05-03-2021");
    assert_eq!(format_driver_date(d(2006, 12, 31)), "31-12-2006");
    for (y, m, dd) in [(2021, 3, 5), (999, 1, 1), (0, 10, 10), (10000, 2, 28), (-1, 1, 1), (-12345, 6, 7), (99999, 12, 31)] {
        let date = chrono::NaiveDate::from_ymd_opt(y, m, dd).unwrap();
        assert_eq!(format_driver_date(d(y, m, dd)), date.format("%d-%m-%Y").to_string());
    }
}

#[test]
fn row_date_read_only_for_rows_that_build() {
    let mut skipped = signed(Some("SWD\\PRINTENUM\\{1}"), Some("Printer"), Some("Printer"));
    skipped.driver_date = s("2023011508300é0");
    assert!(driver_updater::hardware::row_date_is_cuttable(&skipped));
    let mut unnamed = signed(Some(""), Some("Nothing"), None);
    unnamed.driver_date = s("2023011508300é0");
    assert!(driver_updater::hardware::row_date_is_cuttable(&unnamed));
    let mut absent = signed(None, Some("Nothing"), None);
    absent.driver_date = s("2023011508300é0");
    assert!(driver_updater::hardware::row_date_is_cuttable(&absent));
    let mut kept = signed(Some("PCI\\VEN_1"), Some("Card"), Some("Display"));
    kept.driver_date = s("2023011508300é0");
    assert!(!driver_updater::hardware::row_date_is_cuttable(&kept));
    kept.driver_date = None;
    assert!(driver_updater::hardware::row_date_is_cuttable(&kept));
}

#[test]
fn skipped_row_with_odd_date_is_dropped() {
    let mut skipped = signed(Some("SW\\{abc}"), Some("Soft"), Some("Software"));
    skipped.driver_date = s("2023011508300é0");
    let kept = signed(Some("PCI\\VEN_1"), Some("Card"), Some("Display"));
    let devices = collect_devices(vec![], vec![skipped, kept]).unwrap();
    assert_eq!(devices.len(), 1);
    assert_eq!(devices[0].device_id, "PCI\\VEN_1");
    assert_eq!(
        devices[0].driver_date,
        Some(DriverDate { year: 2023, month: 1, day: 15, hour: 8, minute: 30, second: 0 })
    );
}
