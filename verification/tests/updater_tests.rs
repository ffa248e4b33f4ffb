use driver_updater::updater::{install_script_for, match_points, mentions_device};
use driver_updater::hardware::{DeviceDriver, DeviceStatus};
use driver_updater::updater::{
    elevation_confirmed, empty_install_summary, format_size, install_results, install_script,
    is_install_success, match_updates_to_devices, result_code_label, update_list_shape,
    DriverUpdate, InstallProgress, InstallResults, UpdateListShape,
};

fn device(name: &str, manufacturer: &str, ids: &[&str]) -> DeviceDriver {
    DeviceDriver {
        device_id: format!("PCI\\{name}"),
        name: name.to_string(),
        manufacturer: manufacturer.to_string(),
        device_class: "Display".to_string(),
        driver_version: "1.0".to_string(),
        driver_date: None,
        hardware_ids: ids.iter().map(|s| s.to_string()).collect(),
        inf_name: String::new(),
        status: DeviceStatus::Unknown,
        update_title: None,
        update_id: None,
    }
}

fn update(id: &str, title: &str, size: u64) -> DriverUpdate {
    DriverUpdate {
        update_id: id.to_string(),
        title: title.to_string(),
        description: String::new(),
        size_bytes: size,
    }
}

fn progress(current: u32, total: u32, title: &str, code: i32) -> InstallProgress {
    InstallProgress { current, total, title: title.to_string(), result_code: code }
}

/// The size text as computed with floating point.
fn float_size(bytes: u64) -> String {
    if bytes >= 1_073_741_824 {
        format!("{:.1} GB", bytes as f64 / 1_073_741_824.0)
    } else if bytes >= 1_048_576 {
        format!("{:.1} MB", bytes as f64 / 1_048_576.0)
    } else if bytes >= 1024 {
        format!("{:.1} KB", bytes as f64 / 1024.0)
    } else {
        format!("{bytes} B")
    }
}

#[test]
fn success_codes_and_labels() {
    assert!(!is_install_success(0));
    assert!(!is_install_success(1));
    assert!(is_install_success(2));
    assert!(is_install_success(3));
    assert!(is_install_success(4));
    assert!(!is_install_success(5));
    assert!(!is_install_success(-1));
    assert_eq!(result_code_label(2), "Geslaagd");
    assert_eq!(result_code_label(3), "Geslaagd (herstart vereist)");
    assert_eq!(result_code_label(4), "Geslaagd (herstart uitgesteld)");
    assert_eq!(result_code_label(5), "Mislukt");
    assert_eq!(result_code_label(0), "Onbekend");
    assert_eq!(result_code_label(i32::MIN), "Onbekend");
}

#[test]
fn success_exactly_when_label_says_geslaagd() {
    for code in -3..10 {
        assert_eq!(is_install_success(code), result_code_label(code).starts_with("Geslaagd"));
    }
}

#[test]
fn sizes_in_units() {
    assert_eq!(format_size(0), "0 B");
    assert_eq!(format_size(1023), "1023 B");
    assert_eq!(format_size(1024), "1.0 KB");
    assert_eq!(format_size(1536), "1.5 KB");
    assert_eq!(format_size(1_048_576), "1.0 MB");
    assert_eq!(format_size(5_242_880), "5.0 MB");
    assert_eq!(format_size(1_073_741_823), "1024.0 MB");
    assert_eq!(format_size(1_073_741_824), "1.0 GB");
    assert_eq!(format_size(1_610_612_736), "1.5 GB");
}

#[test]
fn sizes_round_like_float_formatting() {
    for b in 0..70_000u64 {
        assert_eq!(format_size(b), float_size(b), "{b}");
    }
    let mut x: u64 = 0x2545_F491_4F6C_DD1D;
    for _ in 0..40_000 {
        x ^= x << 13;
        x ^= x >> 7;
        x ^= x << 17;
        for b in [x, x >> 8, x >> 20, x >> 30, x >> 34, x >> 40, x >> 44, x >> 50] {
            assert_eq!(format_size(b), float_size(b), "{b}");
        }
    }
    for e in 0..64u32 {
        let p = 1u64 << e;
        for b in [p - 1, p, p + 1, p.wrapping_mul(3) / 2] {
            assert_eq!(format_size(b), float_size(b), "{b}");
        }
    }
    for b in [u64::MAX, u64::MAX - 1, (1u64 << 53) + 1, (1u64 << 54) + 2, (1u64 << 54) + 6, 1280, 1_310_720] {
        assert_eq!(format_size(b), float_size(b), "{b}");
    }
}

#[test]
fn matching_marks_best_update() {
    let mut devices = vec![
        device("GeForce RTX 3060", "NVIDIA", &["PCI\\VEN_10DE&DEV_2504"]),
        device("Realtek Audio", "", &[]),
        device("Mystery", "", &[]),
    ];
    let updates = vec![
        update("u1", "NVIDIA - Display - 31.0.15.3623", 700_000_000),
        update("u2", "NVIDIA GeForce RTX 3060 driver", 800_000_000),
        update("u3", "Realtek Semiconductor Corp. - Extension", 1000),
    ];
    match_updates_to_devices(&mut devices, &updates);
    assert_eq!(devices[0].status, DeviceStatus::UpdateAvailable);
    assert_eq!(devices[0].update_id.as_deref(), Some("u2"));
    assert_eq!(devices[0].update_title.as_deref(), Some("NVIDIA GeForce RTX 3060 driver"));
    assert_eq!(devices[1].status, DeviceStatus::UpToDate);
    assert_eq!(devices[1].update_id, None);
    assert_eq!(devices[2].status, DeviceStatus::UpToDate);
    assert_eq!(devices[2].update_title, None);
}

#[test]
fn matching_ignores_case() {
    let mut devices = vec![device("intel wi-fi 6 ax201", "", &[])];
    let updates = vec![update("w", "Intel Wi-Fi 6 AX201 160MHz", 10)];
    match_updates_to_devices(&mut devices, &updates);
    assert_eq!(devices[0].update_id.as_deref(), Some("w"));
}

#[test]
fn matching_by_hardware_id_in_upper_case() {
    let mut devices = vec![device("Controller", "", &["pci\\ven_8086&dev_a0f0"])];
    let updates = vec![update("h", "Driver for PCI\\VEN_8086&DEV_A0F0 chips", 10)];
    match_updates_to_devices(&mut devices, &updates);
    assert_eq!(devices[0].status, DeviceStatus::UpdateAvailable);
    assert_eq!(devices[0].update_id.as_deref(), Some("h"));
}

#[test]
fn matching_ties_pick_the_last_update() {
    let mut devices = vec![device("Webcam", "", &[])];
    let updates = vec![update("first", "Webcam A", 1), update("second", "Webcam B", 1), update("other", "Printer", 1)];
    match_updates_to_devices(&mut devices, &updates);
    assert_eq!(devices[0].update_id.as_deref(), Some("second"));
}

#[test]
fn matching_resets_previous_results_and_is_idempotent() {
    let mut devices = vec![device("Webcam", "", &[])];
    devices[0].status = DeviceStatus::Installed;
    devices[0].update_id = Some("old".to_string());
    match_updates_to_devices(&mut devices, &[]);
    assert_eq!(devices[0].status, DeviceStatus::UpToDate);
    assert_eq!(devices[0].update_id, None);
    let updates = vec![update("x", "Webcam", 1)];
    match_updates_to_devices(&mut devices, &updates);
    let once: Vec<_> = devices.iter().map(|d| (d.status, d.update_id.clone(), d.update_title.clone())).collect();
    match_updates_to_devices(&mut devices, &updates);
    let twice: Vec<_> = devices.iter().map(|d| (d.status, d.update_id.clone(), d.update_title.clone())).collect();
    assert_eq!(once, twice);
}

#[test]
fn install_script_embeds_the_identifiers_as_json() {
    assert_eq!(install_script(&[]), Ok(None));
    let ids = vec!["abc-1".to_string(), "q\"uote".to_string()];
    let script = install_script(&ids).unwrap().unwrap();
    let ids_json = serde_json::to_string(&ids).unwrap();
    assert_eq!(ids_json, "[\"abc-1\",\"q\\\"uote\"]");
    let expected = format!(
        r#"
$ErrorActionPreference = 'Stop'
$TargetIds = ConvertFrom-Json '{ids_json}'
$Session = New-Object -ComObject Microsoft.Update.Session
$Searcher = $Session.CreateUpdateSearcher()
$Searcher.Online = $true
$Result = $Searcher.Search("IsInstalled=0 and Type='Driver' and IsHidden=0")
$ToInstall = New-Object -ComObject Microsoft.Update.UpdateColl
foreach ($Update in $Result.Updates) {{
    if ($TargetIds -contains $Update.Identity.UpdateID) {{
        [void]$ToInstall.Add($Update)
    }}
}}
if ($ToInstall.Count -eq 0) {{
    @{{ reboot_required = $false; results = @() }} | ConvertTo-Json -Compress -Depth 4
    exit 0
}}
$Installer = $Session.CreateUpdateInstaller()
$Installer.Updates = $ToInstall
$InstallResult = $Installer.Install()
$results = @()
for ($i = 0; $i -lt $ToInstall.Count; $i++) {{
    $results += [PSCustomObject]@{{
        current = $i + 1
        total = $ToInstall.Count
        title = $ToInstall.Item($i).Title
        result_code = $InstallResult.GetUpdateResult($i).ResultCode
    }}
}}
@{{ reboot_required = $InstallResult.RebootRequired; results = $results }} | ConvertTo-Json -Compress -Depth 4
"#
    );
    assert_eq!(script, expected);
}

#[test]
fn install_result_shapes() {
    let one = install_results(Some(InstallResults::One(progress(1, 1, "A", 2))));
    assert_eq!(one.len(), 1);
    assert_eq!(one[0].title, "A");
    let many = install_results(Some(InstallResults::Many(vec![progress(1, 2, "A", 2), progress(2, 2, "B", 5)])));
    assert_eq!(many.len(), 2);
    assert_eq!(many[1].result_code, 5);
    assert!(install_results(None).is_empty());
    let empty = empty_install_summary();
    assert!(empty.results.is_empty());
    assert!(!empty.reboot_required);
}

#[test]
fn update_list_shapes() {
    assert_eq!(update_list_shape(""), UpdateListShape::Empty);
    assert_eq!(update_list_shape("  \r\n"), UpdateListShape::Empty);
    assert_eq!(update_list_shape("null"), UpdateListShape::Empty);
    assert_eq!(update_list_shape(" null \n"), UpdateListShape::Empty);
    assert_eq!(update_list_shape("[{\"a\":1}]"), UpdateListShape::List);
    assert_eq!(update_list_shape("  [ ]"), UpdateListShape::List);
    assert_eq!(update_list_shape("{\"update_id\":\"x\"}"), UpdateListShape::Single);
    assert_eq!(update_list_shape("nullx"), UpdateListShape::Single);
}

#[test]
fn elevation_output() {
    assert!(elevation_confirmed("True\r\n"));
    assert!(elevation_confirmed("  TRUE "));
    assert!(elevation_confirmed("true"));
    assert!(!elevation_confirmed("False\r\n"));
    assert!(!elevation_confirmed(""));
    assert!(!elevation_confirmed("true true"));
}

#[test]
fn matching_needs_upper_case_folding_of_ids() {
    let mut devices = vec![device("zzz", "", &["PCI\\VEN_X"])];
    let updates = vec![update("id", "Driver pci\\ven_x", 10)];
    match_updates_to_devices(&mut devices, &updates);
    assert_eq!(devices[0].update_id.as_deref(), Some("id"));
}

#[test]
fn mentions_and_points_on_folded_texts() {
    let ids = vec!["pci\\a".to_string(), "usb\\b".to_string(), "acpi\\c".to_string()];
    assert_eq!(match_points("geforce by nvidia pci\\a usb\\b", "geforce", true, "nvidia", &ids), 55);
    assert_eq!(match_points("geforce by nvidia", "geforce", false, "nvidia", &ids), 10);
    assert_eq!(match_points("unrelated", "geforce", true, "nvidia", &ids), 0);
    assert_eq!(match_points("anything", "", false, "", &vec![]), 10);
    let upper = vec!["PCI\\A".to_string()];
    assert!(mentions_device("x", "y", false, "", "DRIVER PCI\\A", &upper));
    assert!(!mentions_device("x", "y", false, "", "DRIVER", &upper));
    assert!(mentions_device("the realtek codec", "codec", false, "", "", &vec![]));
    assert!(mentions_device("realtek driver", "codec", true, "realtek", "", &vec![]));
    assert!(!mentions_device("realtek driver", "codec", false, "realtek", "", &vec![]));
}

#[test]
fn install_script_around_json() {
    let s = install_script_for("[\"a\"]");
    assert!(s.starts_with("\n$ErrorActionPreference = 'Stop'\n$TargetIds = ConvertFrom-Json '[\"a\"]'\n$Session"));
    assert!(s.ends_with("| ConvertTo-Json -Compress -Depth 4\n"));
}

#[test]
fn score_capacity() {
    assert!(driver_updater::updater::device_score_fits(&device("x", "", &["a", "b"])));
}

#[test]
fn unmatched_devices_without_driver_info_stay_unknown() {
    let mut bare = device("Mystery", "", &[]);
    bare.driver_version = String::new();
    let mut with_inf = device("Other", "", &[]);
    with_inf.driver_version = String::new();
    with_inf.inf_name = "oem1.inf".to_string();
    let mut offered = device("Webcam", "", &[]);
    offered.driver_version = String::new();
    let mut devices = vec![bare, with_inf, offered, device("Plain", "", &[])];
    devices[0].update_id = Some("old".to_string());
    match_updates_to_devices(&mut devices, &[update("w", "Webcam", 1)]);
    assert_eq!(devices[0].status, DeviceStatus::Unknown);
    assert_eq!(devices[0].update_id, None);
    assert_eq!(devices[0].update_title, None);
    assert_eq!(devices[1].status, DeviceStatus::UpToDate);
    assert_eq!(devices[2].status, DeviceStatus::UpdateAvailable);
    assert_eq!(devices[3].status, DeviceStatus::UpToDate);
}

#[test]
fn json_list_of_identifiers() {
    let ids = vec!["a\u{1}b\u{1f}\u{8}\t\n\u{c}\r\"\\é\u{7f}".to_string(), String::new(), "x".to_string()];
    let script = install_script(&ids).unwrap().unwrap();
    let json = serde_json::to_string(&ids).unwrap();
    assert_eq!(json, "[\"a\\u0001b\\u001f\\b\\t\\n\\f\\r\\\"\\\\é\u{7f}\",\"\",\"x\"]");
    assert!(script.contains(&format!("ConvertFrom-Json '{json}'")));
}

#[test]
fn install_report_text_trims_or_refuses_blank_output() {
    assert_eq!(driver_updater::updater::install_report_text("  \n\t "), None);
    assert_eq!(driver_updater::updater::install_report_text(""), None);
    assert_eq!(
        driver_updater::updater::install_report_text("  {\"Succeeded\":1}\r\n"),
        Some("{\"Succeeded\":1}")
    );
}
