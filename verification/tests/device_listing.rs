use qdl_gui::device::{
    detect_devices, edl_device_info, edl_devices, first_listing, is_edl_usb_id, listing_settled,
    parse_device_listing, parse_device_output, probe_programs, tool_program, DeviceInfo,
    DeviceTool, DeviceType, RebootCommand, UsbDevice, QUALCOMM_VENDOR_ID,
};

fn summary(v: &[DeviceInfo]) -> Vec<(DeviceType, String, String)> {
    v.iter().map(|d| (d.device_type, d.serial.clone(), d.name.clone())).collect()
}

#[test]
fn adb_listing_keeps_ready_devices_after_the_heading() {
    let out = "List of devices attached\nemulator-5554\tdevice\nR58M123\tunauthorized\nABC123  device product:x model:y\n\n";
    let v = parse_device_listing(DeviceTool::Adb, out);
    assert_eq!(
        summary(&v),
        vec![
            (DeviceType::ADB, "emulator-5554".to_string(), "Android Device".to_string()),
            (DeviceType::ADB, "ABC123".to_string(), "Android Device".to_string()),
        ]
    );
}

#[test]
fn adb_heading_line_never_names_a_device() {
    // The first line is skipped even when it looks like a device line.
    let v = parse_device_listing(DeviceTool::Adb, "FIRST device\nSECOND device");
    assert_eq!(summary(&v), vec![(DeviceType::ADB, "SECOND".to_string(), "Android Device".to_string())]);
    assert!(parse_device_listing(DeviceTool::Adb, "List of devices attached\n").is_empty());
    assert!(parse_device_listing(DeviceTool::Adb, "").is_empty());
}

#[test]
fn adb_listing_with_crlf_endings() {
    let v = parse_device_listing(DeviceTool::Adb, "List of devices attached\r\nSER1\tdevice\r\nSER2\toffline\r\n");
    assert_eq!(summary(&v), vec![(DeviceType::ADB, "SER1".to_string(), "Android Device".to_string())]);
}

#[test]
fn fastboot_listing_has_no_heading() {
    let v = parse_device_listing(DeviceTool::Fastboot, "XYZ\tfastboot\nQQQ bootloader\n 9f8e\u{3000}fastboot");
    assert_eq!(
        summary(&v),
        vec![
            (DeviceType::Fastboot, "XYZ".to_string(), "Fastboot Device".to_string()),
            (DeviceType::Fastboot, "9f8e".to_string(), "Fastboot Device".to_string()),
        ]
    );
}

#[test]
fn a_line_with_one_word_names_no_device() {
    assert!(parse_device_listing(DeviceTool::Fastboot, "fastboot\n\n   \n").is_empty());
    assert!(parse_device_listing(DeviceTool::Fastboot, "ABC devicefastboot").is_empty());
}

#[test]
fn output_that_is_not_utf8_is_refused() {
    assert!(parse_device_output(DeviceTool::Adb, &[0x41, 0xff, 0x0a]).is_none());
    let v = parse_device_output(DeviceTool::Adb, b"List of devices attached\nS1\tdevice\n").unwrap();
    assert_eq!(summary(&v), vec![(DeviceType::ADB, "S1".to_string(), "Android Device".to_string())]);
    assert_eq!(parse_device_output(DeviceTool::Fastboot, b"").unwrap().len(), 0);
}

#[test]
fn edl_ids() {
    assert_eq!(QUALCOMM_VENDOR_ID, 0x05c6);
    assert!(is_edl_usb_id(0x05c6, 0x9008));
    assert!(is_edl_usb_id(0x05c6, 0x900e));
    assert!(!is_edl_usb_id(0x05c6, 0x9009));
    assert!(!is_edl_usb_id(0x18d1, 0x9008));
}

#[test]
fn edl_serial_from_product_string() {
    let d = edl_device_info(0x05c6, 0x9008, Some("QUSB__BULK_SN:1A2B3C4D"));
    assert_eq!(d.device_type, DeviceType::EDL);
    assert_eq!(d.serial, "1A2B3C4D");
    assert_eq!(d.name, "Qualcomm EDL Device");
    // The first marker counts.
    let d = edl_device_info(0x05c6, 0x9008, Some("A_SN:x_SN:y"));
    assert_eq!(d.serial, "x_SN:y");
    // Marker at the very end: empty serial.
    assert_eq!(edl_device_info(0x05c6, 0x9008, Some("QUSB_SN:")).serial, "");
}

#[test]
fn edl_serial_falls_back_to_ids() {
    assert_eq!(edl_device_info(0x05c6, 0x9008, Some("QUSB__BULK")).serial, "05c6:9008");
    assert_eq!(edl_device_info(0x05c6, 0x900e, None).serial, "05c6:900e");
    assert_eq!(edl_device_info(0x0001, 0xabcd, None).serial, "0001:abcd");
}

fn usb(vendor_id: u16, product_id: u16, product: Option<&str>) -> UsbDevice {
    UsbDevice { vendor_id, product_id, product: product.map(|p| p.to_string()) }
}

#[test]
fn edl_devices_keep_only_edl_ids_in_bus_order() {
    let found = vec![
        usb(0x18d1, 0x4ee7, Some("Pixel")),
        usb(0x05c6, 0x9008, Some("QUSB__BULK_SN:AAA")),
        usb(0x05c6, 0x9009, None),
        usb(0x05c6, 0x900e, None),
    ];
    let v = edl_devices(&found);
    assert_eq!(
        summary(&v),
        vec![
            (DeviceType::EDL, "AAA".to_string(), "Qualcomm EDL Device".to_string()),
            (DeviceType::EDL, "05c6:900e".to_string(), "Qualcomm EDL Device".to_string()),
        ]
    );
    assert!(edl_devices(&vec![]).is_empty());
}

#[test]
fn only_the_first_text_listing_counts() {
    let attempts = vec![
        None,
        Some(vec![0xff, 0xfe]),
        Some(b"List of devices attached\nS1\tdevice\n".to_vec()),
        Some(b"List of devices attached\nS2\tdevice\n".to_vec()),
    ];
    let v = first_listing(DeviceTool::Adb, &attempts);
    assert_eq!(summary(&v), vec![(DeviceType::ADB, "S1".to_string(), "Android Device".to_string())]);
    assert!(first_listing(DeviceTool::Adb, &vec![None, Some(vec![0x80])]).is_empty());
    assert!(first_listing(DeviceTool::Fastboot, &vec![]).is_empty());
    assert!(!listing_settled(&None));
    assert!(!listing_settled(&Some(vec![0xc3])));
    assert!(listing_settled(&Some(Vec::new())));
}

#[test]
fn detect_devices_puts_edl_first_then_adb_then_fastboot() {
    let all = detect_devices(
        &vec![usb(0x05c6, 0x9008, Some("X_SN:e"))],
        &vec![Some(b"List of devices attached\na1\tdevice\na2\tdevice\n".to_vec())],
        &vec![None, Some(b"f\tfastboot\n".to_vec())],
    );
    let serials: Vec<String> = all.iter().map(|d| d.serial.clone()).collect();
    assert_eq!(serials, vec!["e", "a1", "a2", "f"]);
    let kinds: Vec<DeviceType> = all.iter().map(|d| d.device_type).collect();
    assert_eq!(kinds, vec![DeviceType::EDL, DeviceType::ADB, DeviceType::ADB, DeviceType::Fastboot]);
    assert!(detect_devices(&vec![], &vec![], &vec![]).is_empty());
}

#[test]
fn probe_programs_try_the_configured_path_first() {
    assert_eq!(probe_programs(DeviceTool::Adb, "", true), vec!["adb.exe", "adb"]);
    assert_eq!(probe_programs(DeviceTool::Adb, "adb.exe", true), vec!["adb.exe", "adb"]);
    assert_eq!(probe_programs(DeviceTool::Adb, "adb", true), vec!["adb", "adb.exe"]);
    assert_eq!(probe_programs(DeviceTool::Adb, "", false), vec!["adb", "/usr/bin/adb", "/usr/local/bin/adb"]);
    assert_eq!(
        probe_programs(DeviceTool::Adb, "/opt/sdk/adb", false),
        vec!["/opt/sdk/adb", "adb", "/usr/bin/adb", "/usr/local/bin/adb"]
    );
    assert_eq!(
        probe_programs(DeviceTool::Adb, "/usr/local/bin/adb", false),
        vec!["/usr/local/bin/adb", "adb", "/usr/bin/adb"]
    );
    assert_eq!(probe_programs(DeviceTool::Fastboot, "", true), vec!["fastboot.exe", "fastboot"]);
    assert_eq!(
        probe_programs(DeviceTool::Fastboot, "fastboot", false),
        vec!["fastboot", "/usr/bin/fastboot", "/usr/local/bin/fastboot"]
    );
    assert_eq!(tool_program(DeviceTool::Fastboot, ""), "fastboot");
    assert_eq!(tool_program(DeviceTool::Adb, "/x/adb"), "/x/adb");
}

#[test]
fn reboot_commands() {
    let c = RebootCommand::new(DeviceTool::Adb, "", "SER1");
    assert_eq!(c.program, "adb");
    assert_eq!(c.args, vec!["-s", "SER1", "reboot", "edl"]);
    let c = RebootCommand::new(DeviceTool::Fastboot, "/opt/tools/fastboot", "SER2");
    assert_eq!(c.program, "/opt/tools/fastboot");
    assert_eq!(c.args, vec!["-s", "SER2", "oem", "edl"]);
    let c = RebootCommand::new(DeviceTool::Fastboot, "", "S");
    assert_eq!(c.program, "fastboot");
    let c = RebootCommand::new(DeviceTool::Adb, "C:\\adb\\adb.exe", "S");
    assert_eq!(c.program, "C:\\adb\\adb.exe");
}

#[test]
fn reboot_outcomes() {
    let adb = RebootCommand::new(DeviceTool::Adb, "", "S");
    assert_eq!(adb.outcome(true, b"ignored"), Ok(()));
    assert_eq!(
        adb.outcome(false, b"error: device 'S' not found"),
        Err("ADB command failed: error: device 'S' not found".to_string())
    );
    let fb = RebootCommand::new(DeviceTool::Fastboot, "", "S");
    assert_eq!(fb.outcome(false, b""), Err("Fastboot command failed: ".to_string()));
    // Invalid UTF-8 in the error output is replaced.
    assert_eq!(fb.outcome(false, &[b'x', 0xff]), Err("Fastboot command failed: x\u{fffd}".to_string()));
}

#[test]
fn mode_names() {
    assert_eq!(DeviceType::EDL.name(), "EDL");
    assert_eq!(DeviceType::ADB.name(), "ADB");
    assert_eq!(DeviceType::Fastboot.name(), "Fastboot");
}
