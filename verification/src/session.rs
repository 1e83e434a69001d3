//! The decisions of a session of the flashing tool: what the log keeps, how
//! devices are shown, what "Switch to EDL" and "Start Flash" do with the
//! current choices.
use vstd::prelude::*;

use crate::config::AppConfig;
use crate::device::{
    device_views, mode_name, reboot_args, reboot_program, string_views,
    DeviceInfo, DeviceTool, DeviceType, DeviceView, RebootCommand,
};
use crate::text::{decimal, decimal_string};

verus! {

// ---------------------------------------------------------------------------
// The log
// ---------------------------------------------------------------------------

/// The most lines the log keeps.
pub const MAX_LOG_LINES: usize = 1000;

/// The log after `line` is added: the line goes last, and the oldest line
/// goes when there are more than [`MAX_LOG_LINES`].
pub open spec fn logged(log: Seq<Seq<char>>, line: Seq<char>) -> Seq<Seq<char>> {
    if log.len() + 1 > MAX_LOG_LINES {
        log.push(line).drop_first()
    } else {
        log.push(line)
    }
}

/// Adds a line to the log, dropping the oldest line when the log would hold
/// more than [`MAX_LOG_LINES`].
pub fn push_log_line(log: &mut Vec<String>, line: String)
    ensures
        string_views(final(log)@) == logged(string_views(old(log)@), line@),
        old(log)@.len() <= MAX_LOG_LINES ==> final(log)@.len() <= MAX_LOG_LINES,
        final(log)@.len() > 0 && final(log)@.last() == line,
{
    let ghost before = string_views(log@);
    log.push(line);
    if log.len() > MAX_LOG_LINES {
        log.remove(0);
    }
    assert(string_views(log@) =~= logged(before, line@));
}

// ---------------------------------------------------------------------------
// Showing devices
// ---------------------------------------------------------------------------

/// How a device is shown: "<mode> - <serial> (<name>)".
pub open spec fn label_of(d: DeviceView) -> Seq<char> {
    mode_name(d.device_type) + " - "@ + d.serial + " ("@ + d.name + ")"@
}

/// How a device is shown in the device list.
pub fn device_label(d: &DeviceInfo) -> (r: String)
    ensures
        r@ == label_of(d@),
{
    let mut r = d.device_type.name();
    r.append(" - ");
    r.append(d.serial.as_str());
    r.append(" (");
    r.append(d.name.as_str());
    r.append(")");
    r
}

/// What the device list shows as selected: the label of the selected
/// device, or "No device selected" when none is selected or the selection is
/// past the end of the list.
pub open spec fn selection_text(devices: Seq<DeviceView>, selected: Option<usize>) -> Seq<char> {
    match selected {
        Some(i) => if i < devices.len() {
            label_of(devices[i as int])
        } else {
            "No device selected"@
        },
        None => "No device selected"@,
    }
}

/// What the device list shows as selected.
pub fn selected_device_text(devices: &Vec<DeviceInfo>, selected: Option<usize>) -> (r: String)
    ensures
        r@ == selection_text(device_views(devices@), selected),
{
    if let Some(i) = selected {
        if i < devices.len() {
            return device_label(&devices[i]);
        }
    }
    String::from_str("No device selected")
}

/// The message after devices were detected: "Found <n> devices".
pub fn devices_found_message(n: usize) -> (r: String)
    ensures
        r@ == "Found "@ + decimal(n as nat) + " devices"@,
{
    let mut r = String::from_str("Found ");
    let digits = decimal_string(n);
    r.append(digits.as_str());
    r.append(" devices");
    r
}

// ---------------------------------------------------------------------------
// Switching a device to EDL mode
// ---------------------------------------------------------------------------

/// What "Switch to EDL" does.
pub enum SwitchPlan {
    /// No device is selected, or the selection is past the end of the list.
    Nothing,
    /// The selected device is in EDL mode already.
    AlreadyEdl,
    /// The selected device is rebooted into EDL mode by this command.
    Reboot(RebootCommand),
}

/// "Switch to EDL" with the given devices, selection and settings: nothing
/// without a selected device; a notice for a device in EDL mode; otherwise
/// the reboot of the selected device by the tool of its mode, found where
/// the settings say.
pub fn plan_switch(devices: &Vec<DeviceInfo>, selected: Option<usize>, config: &AppConfig) -> (r:
    SwitchPlan)
    ensures
        match selected {
            None => r is Nothing,
            Some(i) => if i >= devices@.len() {
                r is Nothing
            } else {
                let d = devices@[i as int];
                match d.device_type {
                    DeviceType::EDL => r is AlreadyEdl,
                    DeviceType::ADB => r matches SwitchPlan::Reboot(c) && c.tool
                        == DeviceTool::Adb && c.program@ == reboot_program(
                        DeviceTool::Adb,
                        config.adb_path@,
                    ) && string_views(c.args@) == reboot_args(DeviceTool::Adb, d.serial@),
                    DeviceType::Fastboot => r matches SwitchPlan::Reboot(c) && c.tool
                        == DeviceTool::Fastboot && c.program@ == reboot_program(
                        DeviceTool::Fastboot,
                        config.fastboot_path@,
                    ) && string_views(c.args@) == reboot_args(DeviceTool::Fastboot, d.serial@),
                }
            },
        },
{
    let i = match selected {
        None => return SwitchPlan::Nothing,
        Some(i) => i,
    };
    if i >= devices.len() {
        return SwitchPlan::Nothing;
    }
    let d = &devices[i];
    match d.device_type {
        DeviceType::EDL => SwitchPlan::AlreadyEdl,
        DeviceType::ADB => SwitchPlan::Reboot(
            RebootCommand::new(DeviceTool::Adb, config.adb_path.as_str(), d.serial.as_str()),
        ),
        DeviceType::Fastboot => SwitchPlan::Reboot(
            RebootCommand::new(
                DeviceTool::Fastboot,
                config.fastboot_path.as_str(),
                d.serial.as_str(),
            ),
        ),
    }
}

/// The tool's name as the switch messages give it.
pub open spec fn tool_label(tool: DeviceTool) -> Seq<char> {
    match tool {
        DeviceTool::Adb => "ADB"@,
        DeviceTool::Fastboot => "Fastboot"@,
    }
}

impl SwitchPlan {
    /// The message logged before the plan is carried out: "Device is already
    /// in EDL mode", "Rebooting to EDL via <tool>...", or none.
    pub fn notice(&self) -> (r: Option<String>)
        ensures
            match self {
                SwitchPlan::Nothing => r is None,
                SwitchPlan::AlreadyEdl => r matches Some(m) && m@
                    == "Device is already in EDL mode"@,
                SwitchPlan::Reboot(c) => r matches Some(m) && m@ == "Rebooting to EDL via "@
                    + tool_label(c.tool) + "..."@,
            },
    {
        match self {
            SwitchPlan::Nothing => None,
            SwitchPlan::AlreadyEdl => Some(String::from_str("Device is already in EDL mode")),
            SwitchPlan::Reboot(c) => {
                let mut m = String::from_str("Rebooting to EDL via ");
                match c.tool {
                    DeviceTool::Adb => m.append("ADB"),
                    DeviceTool::Fastboot => m.append("Fastboot"),
                }
                m.append("...");
                Some(m)
            },
        }
    }
}

/// The message logged after a reboot command ran: "Rebooted to EDL
/// successfully", or "Failed to reboot via <tool>: <error>".
pub fn reboot_report(tool: DeviceTool, result: Result<(), &str>) -> (r: String)
    ensures
        match result {
            Ok(()) => r@ == "Rebooted to EDL successfully"@,
            Err(e) => r@ == "Failed to reboot via "@ + tool_label(tool) + ": "@ + e@,
        },
{
    match result {
        Ok(()) => String::from_str("Rebooted to EDL successfully"),
        Err(e) => {
            let mut m = String::from_str("Failed to reboot via ");
            match tool {
                DeviceTool::Adb => m.append("ADB"),
                DeviceTool::Fastboot => m.append("Fastboot"),
            }
            m.append(": ");
            m.append(e);
            m
        },
    }
}

// ---------------------------------------------------------------------------
// Starting a flash run
// ---------------------------------------------------------------------------

/// What "Start Flash" does.
pub enum FlashPlan {
    /// Nothing is started; the message says why.
    Refuse(String),
    /// Nothing is started and nothing is said: the selection is past the end
    /// of the device list.
    Ignore,
    /// A flash run starts on the device with this serial.
    Start(String),
}

/// [`FlashPlan`] as values.
pub enum FlashDecision {
    Refuse(Seq<char>),
    Ignore,
    Start(Seq<char>),
}

impl View for FlashPlan {
    type V = FlashDecision;

    open spec fn view(&self) -> FlashDecision {
        match self {
            FlashPlan::Refuse(m) => FlashDecision::Refuse(m@),
            FlashPlan::Ignore => FlashDecision::Ignore,
            FlashPlan::Start(s) => FlashDecision::Start(s@),
        }
    }
}

/// "Start Flash": refused while a run is going on, without a selected
/// device, without a ROM directory, without a loader file, or when the
/// selected device is not in EDL mode (checked in that order); ignored when
/// the selection is past the end of the device list; otherwise started on
/// the selected device.
pub open spec fn flash_decision(
    is_flashing: bool,
    devices: Seq<DeviceView>,
    selected: Option<usize>,
    has_rom_directory: bool,
    has_loader: bool,
) -> FlashDecision {
    if is_flashing {
        FlashDecision::Refuse("Already flashing..."@)
    } else if selected is None {
        FlashDecision::Refuse("No device selected"@)
    } else if !has_rom_directory {
        FlashDecision::Refuse("No ROM directory selected"@)
    } else if !has_loader {
        FlashDecision::Refuse("No loader file selected"@)
    } else {
        let i = selected->0;
        if i >= devices.len() {
            FlashDecision::Ignore
        } else if devices[i as int].device_type != DeviceType::EDL {
            FlashDecision::Refuse("Device is not in EDL mode. Please switch to EDL first."@)
        } else {
            FlashDecision::Start(devices[i as int].serial)
        }
    }
}

/// What "Start Flash" does with the current session.
pub fn plan_flash(
    is_flashing: bool,
    devices: &Vec<DeviceInfo>,
    selected: Option<usize>,
    has_rom_directory: bool,
    has_loader: bool,
) -> (r: FlashPlan)
    ensures
        r@ == flash_decision(
            is_flashing,
            device_views(devices@),
            selected,
            has_rom_directory,
            has_loader,
        ),
{
    if is_flashing {
        return FlashPlan::Refuse(String::from_str("Already flashing..."));
    }
    let i = match selected {
        None => return FlashPlan::Refuse(String::from_str("No device selected")),
        Some(i) => i,
    };
    if !has_rom_directory {
        return FlashPlan::Refuse(String::from_str("No ROM directory selected"));
    }
    if !has_loader {
        return FlashPlan::Refuse(String::from_str("No loader file selected"));
    }
    if i >= devices.len() {
        return FlashPlan::Ignore;
    }
    let d = &devices[i];
    if d.device_type != DeviceType::EDL {
        return FlashPlan::Refuse(
            String::from_str("Device is not in EDL mode. Please switch to EDL first."),
        );
    }
    FlashPlan::Start(d.serial.clone())
}

/// A flash run starts only when none is going on, a ROM directory and a
/// loader file are chosen, and the selected device is in EDL mode; it runs
/// on that device.
pub proof fn lemma_flash_starts_only_on_ready_edl_device(
    is_flashing: bool,
    devices: Seq<DeviceView>,
    selected: Option<usize>,
    has_rom_directory: bool,
    has_loader: bool,
    serial: Seq<char>,
)
    requires
        flash_decision(is_flashing, devices, selected, has_rom_directory, has_loader)
            == FlashDecision::Start(serial),
    ensures
        !is_flashing,
        has_rom_directory,
        has_loader,
        selected matches Some(i) && i < devices.len() && devices[i as int].device_type
            == DeviceType::EDL && devices[i as int].serial == serial,
{
}

/// A flash run starts on every selected device that is in EDL mode, once
/// no run is going on and a ROM directory and a loader file are chosen; a
/// selection past the end of the list is ignored, and nothing else is.
pub proof fn lemma_flash_starts_on_every_ready_edl_device(
    is_flashing: bool,
    devices: Seq<DeviceView>,
    selected: Option<usize>,
    has_rom_directory: bool,
    has_loader: bool,
)
    ensures
        !is_flashing && has_rom_directory && has_loader && (selected matches Some(i) && i
            < devices.len() && devices[i as int].device_type == DeviceType::EDL) ==> flash_decision(
            is_flashing,
            devices,
            selected,
            has_rom_directory,
            has_loader,
        ) == FlashDecision::Start(devices[selected->0 as int].serial),
        (flash_decision(is_flashing, devices, selected, has_rom_directory, has_loader)
            is Ignore) <==> (!is_flashing && has_rom_directory && has_loader && (selected matches Some(
            i,
        ) && i >= devices.len())),
{
}

/// The text shown as selected is the label of the selected device whenever
/// the selection lies within the device list, and "No device selected"
/// exactly when it does not.
pub proof fn lemma_selection_text_shows_every_selected_device(
    devices: Seq<DeviceView>,
    selected: Option<usize>,
)
    ensures
        selected matches Some(i) && i < devices.len() ==> selection_text(devices, selected)
            == label_of(devices[selected->0 as int]),
        !(selected matches Some(i) && i < devices.len()) ==> selection_text(devices, selected)
            == "No device selected"@,
{
}

} // verus!
