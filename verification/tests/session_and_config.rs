use qdl_gui::config::{host_is_windows, AppConfig};
use qdl_gui::device::{DeviceInfo, DeviceTool, DeviceType};
use qdl_gui::flasher::{flash_files, flash_report, is_flash_file, select_flash_files};
use qdl_gui::session::{
    device_label, devices_found_message, plan_flash, plan_switch, push_log_line, reboot_report,
    selected_device_text, FlashPlan, SwitchPlan, MAX_LOG_LINES,
};
use std::path::PathBuf;

fn dev(t: DeviceType, serial: &str, name: &str) -> DeviceInfo {
    DeviceInfo { device_type: t, serial: serial.to_string(), name: name.to_string() }
}

fn devices() -> Vec<DeviceInfo> {
    vec![
        dev(DeviceType::EDL, "E1", "Qualcomm EDL Device"),
        dev(DeviceType::ADB, "A1", "Android Device"),
        dev(DeviceType::Fastboot, "F1", "Fastboot Device"),
    ]
}

fn strings(v: &[&str]) -> Vec<String> {
    v.iter().map(|s| s.to_string()).collect()
}

#[test]
fn config_defaults() {
    let c = AppConfig::for_platform(false);
    assert_eq!(c.adb_path, "adb");
    assert_eq!(c.fastboot_path, "fastboot");
    assert_eq!(c.last_loader_path, None);
    assert_eq!(c.last_rom_directory, None);
    assert_eq!(c.last_storage_type, "ufs");
    let w = AppConfig::for_platform(true);
    assert_eq!(w.adb_path, "adb.exe");
    assert_eq!(w.fastboot_path, "fastboot.exe");
    let d = AppConfig::default();
    assert_eq!(d.adb_path, if host_is_windows() { "adb.exe" } else { "adb" });
    assert_eq!(host_is_windows(), std::path::MAIN_SEPARATOR == '\\');
    assert_eq!(AppConfig::for_separator('\\').adb_path, "adb.exe");
    assert_eq!(AppConfig::for_separator('/').fastboot_path, "fastboot");
    assert_eq!(AppConfig::for_separator('/').last_storage_type, "ufs");
}

#[test]
fn config_remembers_the_session() {
    let mut c = AppConfig::for_platform(false);
    c.adb_path = "/opt/adb".to_string();
    c.remember_session(Some(PathBuf::from("/l/prog.elf")), Some(PathBuf::from("/rom")), "emmc".to_string());
    assert_eq!(c.adb_path, "/opt/adb");
    assert_eq!(c.last_loader_path, Some(PathBuf::from("/l/prog.elf")));
    assert_eq!(c.last_rom_directory, Some(PathBuf::from("/rom")));
    assert_eq!(c.last_storage_type, "emmc");
}

#[test]
fn log_keeps_at_most_max_lines() {
    let mut log: Vec<String> = Vec::new();
    for i in 0..(MAX_LOG_LINES + 5) {
        push_log_line(&mut log, format!("line {}", i));
        assert!(log.len() <= MAX_LOG_LINES);
        assert_eq!(log.last().unwrap(), &format!("line {}", i));
    }
    assert_eq!(MAX_LOG_LINES, 1000);
    assert_eq!(log.len(), 1000);
    assert_eq!(log[0], "line 5");
}

#[test]
fn labels() {
    let d = devices();
    assert_eq!(device_label(&d[1]), "ADB - A1 (Android Device)");
    assert_eq!(selected_device_text(&d, Some(0)), "EDL - E1 (Qualcomm EDL Device)");
    assert_eq!(selected_device_text(&d, Some(3)), "No device selected");
    assert_eq!(selected_device_text(&d, None), "No device selected");
    assert_eq!(devices_found_message(0), "Found 0 devices");
    assert_eq!(devices_found_message(12), "Found 12 devices");
}

#[test]
fn switch_plans() {
    let d = devices();
    let mut config = AppConfig::for_platform(false);
    config.fastboot_path = "/usr/local/bin/fastboot".to_string();
    assert!(matches!(plan_switch(&d, None, &config), SwitchPlan::Nothing));
    assert!(matches!(plan_switch(&d, Some(7), &config), SwitchPlan::Nothing));
    let p = plan_switch(&d, Some(0), &config);
    assert!(matches!(p, SwitchPlan::AlreadyEdl));
    assert_eq!(p.notice(), Some("Device is already in EDL mode".to_string()));
    let p = plan_switch(&d, Some(1), &config);
    match &p {
        SwitchPlan::Reboot(c) => {
            assert_eq!(c.tool, DeviceTool::Adb);
            assert_eq!(c.program, "adb");
            assert_eq!(c.args, vec!["-s", "A1", "reboot", "edl"]);
        }
        _ => panic!("expected a reboot"),
    }
    assert_eq!(p.notice(), Some("Rebooting to EDL via ADB...".to_string()));
    let p = plan_switch(&d, Some(2), &config);
    match &p {
        SwitchPlan::Reboot(c) => {
            assert_eq!(c.tool, DeviceTool::Fastboot);
            assert_eq!(c.program, "/usr/local/bin/fastboot");
            assert_eq!(c.args, vec!["-s", "F1", "oem", "edl"]);
        }
        _ => panic!("expected a reboot"),
    }
    assert_eq!(p.notice(), Some("Rebooting to EDL via Fastboot...".to_string()));
    assert_eq!(SwitchPlan::Nothing.notice(), None);
}

#[test]
fn reboot_reports() {
    assert_eq!(reboot_report(DeviceTool::Adb, Ok(())), "Rebooted to EDL successfully");
    assert_eq!(
        reboot_report(DeviceTool::Adb, Err("ADB command failed: boom")),
        "Failed to reboot via ADB: ADB command failed: boom"
    );
    assert_eq!(reboot_report(DeviceTool::Fastboot, Err("x")), "Failed to reboot via Fastboot: x");
}

fn refusal(p: FlashPlan) -> String {
    match p {
        FlashPlan::Refuse(m) => m,
        _ => panic!("expected a refusal"),
    }
}

#[test]
fn flash_plans() {
    let d = devices();
    assert_eq!(refusal(plan_flash(true, &d, Some(0), true, true)), "Already flashing...");
    assert_eq!(refusal(plan_flash(false, &d, None, true, true)), "No device selected");
    assert_eq!(refusal(plan_flash(false, &d, Some(0), false, true)), "No ROM directory selected");
    assert_eq!(refusal(plan_flash(false, &d, Some(0), true, false)), "No loader file selected");
    assert_eq!(
        refusal(plan_flash(false, &d, Some(1), true, true)),
        "Device is not in EDL mode. Please switch to EDL first."
    );
    assert!(matches!(plan_flash(false, &d, Some(9), true, true), FlashPlan::Ignore));
    match plan_flash(false, &d, Some(0), true, true) {
        FlashPlan::Start(s) => assert_eq!(s, "E1"),
        _ => panic!("expected a start"),
    }
    // The checks come in order: no device selected wins over a missing ROM directory.
    assert_eq!(refusal(plan_flash(false, &d, None, false, false)), "No device selected");
}

#[test]
fn flash_file_names() {
    assert!(is_flash_file("rawprogram0.xml", "rawprogram"));
    assert!(is_flash_file("patch_unsparse.xml", "patch"));
    assert!(!is_flash_file("rawprogram0.xml.bak", "rawprogram"));
    assert!(!is_flash_file("Rawprogram0.xml", "rawprogram"));
    assert!(!is_flash_file("patch0.XML", "patch"));
}

#[test]
fn flash_files_are_selected_and_sorted() {
    let names = strings(&[
        "rawprogram1.xml",
        "patch0.xml",
        "rawprogram0.xml",
        "rawprogram_unsparse.xml",
        "readme.txt",
        "rawprogram2.xml.bak",
        "Rawprogram3.xml",
        "patch1.xml",
        "rawprogram10.xml",
    ]);
    let f = flash_files(&names);
    assert_eq!(f.rawprogram, strings(&["rawprogram0.xml", "rawprogram1.xml", "rawprogram10.xml", "rawprogram_unsparse.xml"]));
    assert_eq!(f.patch, strings(&["patch0.xml", "patch1.xml"]));
    assert!(select_flash_files(&strings(&["a.txt"]), "rawprogram").is_empty());
}

#[test]
fn flash_reports() {
    assert_eq!(
        flash_report(0, 3),
        strings(&["Starting flash operation...", "Error: No rawprogram XML files found in ROM directory"])
    );
    assert_eq!(
        flash_report(3, 1),
        strings(&[
            "Starting flash operation...",
            "Found 3 rawprogram files",
            "Found 1 patch files",
            "Flash operation completed (placeholder)",
        ])
    );
}

#[test]
fn flash_selection_ignores_listing_order() {
    let a = strings(&["rawprogram2.xml", "x.xml", "rawprogram0.xml", "rawprogram1.xml", "patch.xml"]);
    let mut b = a.clone();
    b.reverse();
    let mut c = a.clone();
    c.rotate_left(2);
    let sa = select_flash_files(&a, "rawprogram");
    assert_eq!(sa, select_flash_files(&b, "rawprogram"));
    assert_eq!(sa, select_flash_files(&c, "rawprogram"));
    assert_eq!(sa, strings(&["rawprogram0.xml", "rawprogram1.xml", "rawprogram2.xml"]));
}

#[test]
fn windows_separator() {
    assert!(qdl_gui::config::is_windows_separator('\\'));
    assert!(!qdl_gui::config::is_windows_separator('/'));
}
