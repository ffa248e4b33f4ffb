use driver_updater::session::filter_matches;
use driver_updater::hardware::{DeviceDriver, DeviceStatus};
use driver_updater::session::{status_badge_label, AppPhase, AppState, Command, WorkerMsg};
use driver_updater::updater::{DriverUpdate, InstallProgress, InstallSummary};

fn device(id: &str, name: &str, manufacturer: &str, class: &str) -> DeviceDriver {
    DeviceDriver {
        device_id: id.to_string(),
        name: name.to_string(),
        manufacturer: manufacturer.to_string(),
        device_class: class.to_string(),
        driver_version: "1.0".to_string(),
        driver_date: None,
        hardware_ids: vec![],
        inf_name: String::new(),
        status: DeviceStatus::Unknown,
        update_title: None,
        update_id: None,
    }
}

fn update(id: &str, title: &str) -> DriverUpdate {
    DriverUpdate {
        update_id: id.to_string(),
        title: title.to_string(),
        description: String::new(),
        size_bytes: 1,
    }
}

fn progress(current: u32, total: u32, title: &str, code: i32) -> InstallProgress {
    InstallProgress { current, total, title: title.to_string(), result_code: code }
}

fn scanned_state() -> AppState {
    let mut state = AppState::new(true);
    let c = state.start_scan();
    assert!(matches!(c, Command::Scan));
    let devices = vec![
        device("PCI\\GPU", "GeForce RTX", "NVIDIA", "Display"),
        device("PCI\\GPU2", "GeForce GTX", "NVIDIA", "Display"),
        device("USB\\CAM", "Webcam", "Logitech", "Camera"),
        device("PCI\\NET", "Ethernet", "Intel", "Net"),
    ];
    let c = state.handle_message(WorkerMsg::ScanDone(Ok(devices)));
    assert!(matches!(c, Command::Check));
    state
}

#[test]
fn new_state() {
    let state = AppState::new(false);
    assert_eq!(state.phase, AppPhase::Idle);
    assert_eq!(state.status_message, "Klik op 'Scannen' om je PC te analyseren.");
    assert!(!state.elevated);
    assert!(!state.is_busy());
    assert!(state.devices.is_empty());
}

#[test]
fn scan_then_check_flow() {
    let mut state = scanned_state();
    assert_eq!(state.phase, AppPhase::Checking);
    assert!(state.is_busy());
    assert_eq!(state.status_message, "Drivers controleren via Windows Update...");
    let updates = vec![
        update("gpu-1", "NVIDIA GeForce driver"),
        update("cam-1", "Logitech Webcam driver"),
        update("zzz", "Unrelated printer"),
    ];
    let c = state.handle_message(WorkerMsg::CheckDone(Ok(updates)));
    assert!(matches!(c, Command::Nothing));
    assert_eq!(state.phase, AppPhase::Ready);
    assert!(!state.is_busy());
    assert_eq!(state.status_message, "4 onderdelen gescand — 2 driver update(s) beschikbaar.");
    assert_eq!(state.installable_update_ids(), vec!["gpu-1".to_string(), "cam-1".to_string()]);
    assert_eq!(state.installable_updates_count(), 2);
    let offered: Vec<&str> = state.installable_updates().iter().map(|u| u.update_id.as_str()).collect();
    assert_eq!(offered, vec!["gpu-1", "cam-1"]);
}

#[test]
fn check_with_nothing_to_install() {
    let mut state = scanned_state();
    state.handle_message(WorkerMsg::CheckDone(Ok(vec![update("p", "Printer")])));
    assert_eq!(state.status_message, "4 onderdelen gescand — alle drivers zijn up-to-date.");
    assert!(state.devices.iter().all(|d| d.status == DeviceStatus::UpToDate));
}

#[test]
fn failures_are_reported() {
    let mut state = scanned_state();
    state.handle_message(WorkerMsg::CheckDone(Err("offline".to_string())));
    assert_eq!(state.phase, AppPhase::Ready);
    assert_eq!(state.error_message.as_deref(), Some("offline"));
    assert_eq!(state.status_message, "4 onderdelen gescand — updatecontrole mislukt.");

    let mut fresh = AppState::new(true);
    fresh.start_scan();
    fresh.handle_message(WorkerMsg::ScanDone(Err("Geen hardware gevonden via WMI".to_string())));
    assert_eq!(fresh.phase, AppPhase::Idle);
    assert_eq!(fresh.status_message, "Scan mislukt.");
    assert_eq!(fresh.error_message.as_deref(), Some("Geen hardware gevonden via WMI"));

    state.handle_message(WorkerMsg::InstallDone(Err("denied".to_string())));
    assert_eq!(state.phase, AppPhase::Ready);
    assert_eq!(state.status_message, "Installatie mislukt.");
    assert_eq!(state.error_message.as_deref(), Some("denied"));
}

#[test]
fn install_flow() {
    let mut state = scanned_state();
    state.handle_message(WorkerMsg::CheckDone(Ok(vec![
        update("gpu-1", "NVIDIA GeForce driver"),
        update("cam-1", "Logitech Webcam driver"),
    ])));
    state.confirm_install = true;
    assert!(!state.confirm_accepted());
    assert!(!state.confirm_install);
    match state.start_install() {
        Command::Install(ids) => assert_eq!(ids, vec!["gpu-1".to_string(), "cam-1".to_string()]),
        _ => panic!("expected an install"),
    }
    assert_eq!(state.phase, AppPhase::Installing);
    assert_eq!(state.status_message, "Drivers installeren...");
    let summary = InstallSummary {
        results: vec![
            progress(1, 2, "NVIDIA GeForce driver", 2),
            progress(2, 2, "Logitech Webcam driver", 5),
        ],
        reboot_required: false,
    };
    state.handle_message(WorkerMsg::InstallDone(Ok(summary)));
    assert_eq!(state.phase, AppPhase::Done);
    assert_eq!(
        state.install_log,
        vec![
            "[1/2] NVIDIA GeForce driver — Geslaagd".to_string(),
            "[2/2] Logitech Webcam driver — Mislukt".to_string(),
        ]
    );
    assert_eq!(state.devices[0].status, DeviceStatus::Installed);
    assert_eq!(state.devices[1].status, DeviceStatus::Installed);
    assert_eq!(state.devices[2].status, DeviceStatus::UpdateAvailable);
    assert_eq!(state.devices[3].status, DeviceStatus::UpToDate);
    assert_eq!(state.status_message, "1 driver(s) geïnstalleerd.");
    assert!(state.show_restart_prompt);
    assert!(!state.restart_accepted());
    assert!(!state.show_restart_prompt);
}

#[test]
fn install_without_success() {
    let mut state = scanned_state();
    let summary = InstallSummary { results: vec![progress(1, 1, "X", 5)], reboot_required: false };
    state.handle_message(WorkerMsg::InstallDone(Ok(summary)));
    assert_eq!(state.status_message, "Geen updates geïnstalleerd.");
    assert!(!state.show_restart_prompt);
    let summary = InstallSummary { results: vec![], reboot_required: true };
    state.handle_message(WorkerMsg::InstallDone(Ok(summary)));
    assert!(state.show_restart_prompt);
    let summary = InstallSummary { results: vec![progress(1, 1, "X", 3)], reboot_required: false };
    state.handle_message(WorkerMsg::InstallDone(Ok(summary)));
    assert!(state.show_restart_prompt);
    assert_eq!(state.install_log, vec!["[1/1] X — Geslaagd (herstart vereist)".to_string()]);
}

#[test]
fn filtering_devices() {
    let mut state = scanned_state();
    state.handle_message(WorkerMsg::CheckDone(Ok(vec![update("cam-1", "Logitech Webcam driver")])));
    let all: Vec<&str> = state.filtered_devices().iter().map(|d| d.device_id.as_str()).collect();
    assert_eq!(all.len(), 4);
    state.filter = "GEFORCE".to_string();
    let gpus: Vec<&str> = state.filtered_devices().iter().map(|d| d.device_id.as_str()).collect();
    assert_eq!(gpus, vec!["PCI\\GPU", "PCI\\GPU2"]);
    state.filter = "intel".to_string();
    let net: Vec<&str> = state.filtered_devices().iter().map(|d| d.device_id.as_str()).collect();
    assert_eq!(net, vec!["PCI\\NET"]);
    state.filter = "camera".to_string();
    assert_eq!(state.filtered_devices().len(), 1);
    state.filter = String::new();
    state.show_only_updates = true;
    let offered: Vec<&str> = state.filtered_devices().iter().map(|d| d.device_id.as_str()).collect();
    assert_eq!(offered, vec!["USB\\CAM"]);
}

#[test]
fn elevation_is_asked_when_not_elevated() {
    let mut state = AppState::new(false);
    state.confirm_install = true;
    assert!(state.confirm_accepted());
    state.show_restart_prompt = true;
    assert!(state.restart_accepted());
}

#[test]
fn badge_labels() {
    assert_eq!(status_badge_label(DeviceStatus::Unknown), "Onbekend");
    assert_eq!(status_badge_label(DeviceStatus::UpToDate), "Up-to-date");
    assert_eq!(status_badge_label(DeviceStatus::UpdateAvailable), "Update beschikbaar");
    assert_eq!(status_badge_label(DeviceStatus::Installed), "Geïnstalleerd");
}

#[test]
fn scan_clears_log_and_error() {
    let mut state = scanned_state();
    state.handle_message(WorkerMsg::InstallDone(Ok(InstallSummary { results: vec![progress(1, 1, "X", 2)], reboot_required: true })));
    state.error_message = Some("old".to_string());
    state.start_scan();
    assert!(state.install_log.is_empty());
    assert!(state.error_message.is_none());
    assert!(!state.show_restart_prompt);
    assert_eq!(state.status_message, "Hardware scannen...");
}

#[test]
fn filter_on_folded_texts() {
    assert!(filter_matches("net", "ethernet", "", ""));
    assert!(filter_matches("intel", "x", "intel corp", ""));
    assert!(filter_matches("disp", "x", "y", "display"));
    assert!(!filter_matches("zz", "x", "y", "z"));
    assert!(filter_matches("", "x", "y", "z"));
}

#[test]
fn narrower_filters_show_fewer_devices() {
    let mut state = scanned_state();
    state.handle_message(WorkerMsg::CheckDone(Ok(vec![update("cam-1", "Logitech Webcam driver")])));
    assert_eq!(state.filtered_devices().len(), state.devices.len());
    let ids = |s: &AppState| -> Vec<String> { s.filtered_devices().iter().map(|d| d.device_id.clone()).collect() };
    state.filter = "Ge".to_string();
    let wide = ids(&state);
    state.filter = "GeForce R".to_string();
    let narrow = ids(&state);
    assert!(narrow.len() <= wide.len());
    assert!(narrow.iter().all(|n| wide.contains(n)));
    assert_eq!(narrow, vec!["PCI\\GPU".to_string()]);
    state.filter = "logi".to_string();
    let all_logi = ids(&state);
    state.show_only_updates = true;
    let offered = ids(&state);
    assert_eq!(all_logi, vec!["USB\\CAM".to_string()]);
    assert_eq!(offered, all_logi);
}

#[test]
fn device_without_driver_info_stays_unknown_after_check() {
    let mut state = AppState::new(true);
    let mut bare = device("ROOT\\X", "Sensor", "", "Sensor");
    bare.driver_version = String::new();
    state.handle_message(WorkerMsg::ScanDone(Ok(vec![bare, device("PCI\\NET", "Ethernet", "Intel", "Net")])));
    state.handle_message(WorkerMsg::CheckDone(Ok(vec![])));
    assert_eq!(state.devices[0].status, DeviceStatus::Unknown);
    assert_eq!(state.devices[1].status, DeviceStatus::UpToDate);
    assert_eq!(state.status_message, "2 onderdelen gescand — alle drivers zijn up-to-date.");
}
