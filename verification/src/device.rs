//! Devices: their kinds, how they are recognised on USB and in the output of
//! the `adb devices` and `fastboot devices` commands, and the commands that
//! reboot them into emergency download (EDL) mode.
use vstd::prelude::*;

use crate::text::{
    chars_of, find_chars, first_occurrence, hex4, hex4_string, is_first_occurrence, occurs_at,
    lemma_first_occurrence_unique,
    is_word, is_white_space, lemma_lines_of_one_line, lemma_lines_of_two_lines,
    lemma_tokens_of_two_words, lemma_tokens_are_words, line_ranges, lines, pieces, range_equals, ranges_within,
    token_ranges, tokens, utf8_lossy, utf8_lossy_text, utf8_text,
};

verus! {

/// The mode a connected device is in.
#[allow(clippy::upper_case_acronyms)]
#[derive(Debug, Clone, Copy, PartialEq, Eq, Structural)]
pub enum DeviceType {
    EDL,
    ADB,
    Fastboot,
}

/// The text a device type is shown as.
pub open spec fn mode_name(t: DeviceType) -> Seq<char> {
    match t {
        DeviceType::EDL => "EDL"@,
        DeviceType::ADB => "ADB"@,
        DeviceType::Fastboot => "Fastboot"@,
    }
}

impl DeviceType {
    /// The text this device type is shown as: "EDL", "ADB" or "Fastboot".
    pub fn name(&self) -> (r: String)
        ensures
            r@ == mode_name(*self),
    {
        match self {
            DeviceType::EDL => String::from_str("EDL"),
            DeviceType::ADB => String::from_str("ADB"),
            DeviceType::Fastboot => String::from_str("Fastboot"),
        }
    }
}

/// A connected device.
#[derive(Debug, Clone)]
pub struct DeviceInfo {
    pub device_type: DeviceType,
    pub serial: String,
    pub name: String,
}

/// What a [`DeviceInfo`] holds, as values.
pub struct DeviceView {
    pub device_type: DeviceType,
    pub serial: Seq<char>,
    pub name: Seq<char>,
}

impl View for DeviceInfo {
    type V = DeviceView;

    open spec fn view(&self) -> DeviceView {
        DeviceView { device_type: self.device_type, serial: self.serial@, name: self.name@ }
    }
}

/// The views of a list of devices.
pub open spec fn device_views(v: Seq<DeviceInfo>) -> Seq<DeviceView> {
    v.map_values(|d: DeviceInfo| d@)
}

proof fn lemma_device_views_push(v: Seq<DeviceInfo>, d: DeviceInfo)
    ensures
        device_views(v.push(d)) == device_views(v).push(d@),
{
    assert(device_views(v.push(d)) =~= device_views(v).push(d@));
}

// ---------------------------------------------------------------------------
// EDL devices on USB
// ---------------------------------------------------------------------------

/// The USB vendor id of Qualcomm.
pub const QUALCOMM_VENDOR_ID: u16 = 0x05c6;

/// A Qualcomm USB device with one of the two product ids of EDL mode
/// (0x9008, 0x900e).
pub open spec fn is_edl_id(vendor_id: u16, product_id: u16) -> bool {
    vendor_id == QUALCOMM_VENDOR_ID && (product_id == 0x9008 || product_id == 0x900e)
}

/// Whether a USB vendor/product pair identifies a device in EDL mode.
pub fn is_edl_usb_id(vendor_id: u16, product_id: u16) -> (r: bool)
    ensures
        r == is_edl_id(vendor_id, product_id),
{
    vendor_id == QUALCOMM_VENDOR_ID && (product_id == 0x9008 || product_id == 0x900e)
}

/// The serial of an EDL device: what follows the first `"_SN:"` in its USB
/// product string; failing that (no product string could be read, or it has
/// no `"_SN:"`), `vvvv:pppp`, the vendor and product ids in four lowercase
/// hexadecimal digits each.
pub open spec fn edl_serial(
    vendor_id: u16,
    product_id: u16,
    product: Option<Seq<char>>,
) -> Seq<char> {
    let fallback = hex4(vendor_id) + seq![':'] + hex4(product_id);
    match product {
        Some(p) => match first_occurrence(p, "_SN:"@) {
            Some(i) => p.skip(i + "_SN:"@.len()),
            None => fallback,
        },
        None => fallback,
    }
}

/// The device record of a USB device in EDL mode, given the product string
/// that could be read from it, if any.
pub fn edl_device_info(vendor_id: u16, product_id: u16, product: Option<&str>) -> (r: DeviceInfo)
    ensures
        r@ == (DeviceView {
            device_type: DeviceType::EDL,
            serial: edl_serial(vendor_id, product_id, match product {
                Some(p) => Some(p@),
                None => None,
            }),
            name: "Qualcomm EDL Device"@,
        }),
{
    let name = String::from_str("Qualcomm EDL Device");
    if let Some(p) = product {
        let cs = chars_of(p);
        let marker = "_SN:";
        if let Some(i) = find_chars(&cs, marker) {
            let m = marker.unicode_len();
            assert(crate::text::is_first_occurrence(cs@, marker@, i as int));
            assert(i + m <= cs.len());
            let serial = p.substring_char(i + m, cs.len()).to_owned();
            assert(serial@ =~= p@.skip(i + marker@.len()));
            return DeviceInfo { device_type: DeviceType::EDL, serial, name };
        }
    }
    let mut serial = hex4_string(vendor_id);
    serial.append(":");
    let pid = hex4_string(product_id);
    serial.append(pid.as_str());
    proof {
        reveal_strlit(":");
    }
    assert(serial@ =~= hex4(vendor_id) + seq![':'] + hex4(product_id));
    DeviceInfo { device_type: DeviceType::EDL, serial, name }
}

// ---------------------------------------------------------------------------
// Devices that adb and fastboot list
// ---------------------------------------------------------------------------

/// A command-line tool that lists devices and can reboot them into EDL mode.
#[derive(Debug, Clone, Copy, PartialEq, Eq, Structural)]
pub enum DeviceTool {
    Adb,
    Fastboot,
}

/// The mode of the devices that a tool lists.
pub open spec fn tool_device_type(tool: DeviceTool) -> DeviceType {
    match tool {
        DeviceTool::Adb => DeviceType::ADB,
        DeviceTool::Fastboot => DeviceType::Fastboot,
    }
}

/// The state word that marks a usable device in a tool's `devices` listing.
pub open spec fn ready_word(tool: DeviceTool) -> Seq<char> {
    match tool {
        DeviceTool::Adb => "device"@,
        DeviceTool::Fastboot => "fastboot"@,
    }
}

/// The name given to devices that a tool lists.
pub open spec fn tool_device_name(tool: DeviceTool) -> Seq<char> {
    match tool {
        DeviceTool::Adb => "Android Device"@,
        DeviceTool::Fastboot => "Fastboot Device"@,
    }
}

/// How many heading lines precede the devices in a tool's listing:
/// `adb devices` starts with "List of devices attached", `fastboot devices`
/// with nothing.
pub open spec fn heading_lines(tool: DeviceTool) -> int {
    match tool {
        DeviceTool::Adb => 1,
        DeviceTool::Fastboot => 0,
    }
}

/// The device that one line of a listing names: a line whose second
/// whitespace-separated word is the tool's state word names the device whose
/// serial is the first word.
pub open spec fn line_device(tool: DeviceTool, line: Seq<char>) -> Option<DeviceView> {
    let t = tokens(line);
    if t.len() >= 2 && t[1] == ready_word(tool) {
        Some(
            DeviceView {
                device_type: tool_device_type(tool),
                serial: t[0],
                name: tool_device_name(tool),
            },
        )
    } else {
        None
    }
}

/// The devices that the given lines name, in order.
pub open spec fn listed_devices(tool: DeviceTool, ls: Seq<Seq<char>>) -> Seq<DeviceView>
    decreases ls.len(),
{
    if ls.len() == 0 {
        seq![]
    } else {
        let before = listed_devices(tool, ls.drop_last());
        match line_device(tool, ls.last()) {
            Some(d) => before.push(d),
            None => before,
        }
    }
}

/// The lines of a listing after its heading lines.
pub open spec fn body_lines(tool: DeviceTool, listing: Seq<char>) -> Seq<Seq<char>> {
    let ls = lines(listing);
    if ls.len() <= heading_lines(tool) {
        seq![]
    } else {
        ls.skip(heading_lines(tool))
    }
}

/// The devices that a tool's `devices` listing names.
pub open spec fn tool_devices(tool: DeviceTool, listing: Seq<char>) -> Seq<DeviceView> {
    listed_devices(tool, body_lines(tool, listing))
}

proof fn lemma_listed_devices_shape(tool: DeviceTool, ls: Seq<Seq<char>>)
    ensures
        forall|k: int|
            0 <= k < listed_devices(tool, ls).len() ==> {
                let d = #[trigger] listed_devices(tool, ls)[k];
                &&& d.device_type == tool_device_type(tool)
                &&& d.name == tool_device_name(tool)
                &&& is_word(d.serial)
            },
    decreases ls.len(),
{
    if ls.len() > 0 {
        lemma_listed_devices_shape(tool, ls.drop_last());
        lemma_tokens_are_words(ls.last());
    }
}

/// Every device that a tool's listing names is in the tool's mode, has the
/// tool's device name, and has a serial that is one whole word: not empty
/// and free of whitespace.
pub proof fn lemma_listed_serials_are_words(tool: DeviceTool, listing: Seq<char>)
    ensures
        forall|k: int|
            0 <= k < tool_devices(tool, listing).len() ==> {
                let d = #[trigger] tool_devices(tool, listing)[k];
                &&& d.device_type == tool_device_type(tool)
                &&& d.name == tool_device_name(tool)
                &&& is_word(d.serial)
            },
{
    lemma_listed_devices_shape(tool, body_lines(tool, listing));
}

/// The devices that a tool's `devices` listing names, given as text.
pub fn parse_device_listing(tool: DeviceTool, listing: &str) -> (r: Vec<DeviceInfo>)
    ensures
        device_views(r@) == tool_devices(tool, listing@),
{
    let cs = chars_of(listing);
    let ls = line_ranges(&cs);
    let (word, name) = match tool {
        DeviceTool::Adb => ("device", "Android Device"),
        DeviceTool::Fastboot => ("fastboot", "Fastboot Device"),
    };
    let kind = match tool {
        DeviceTool::Adb => DeviceType::ADB,
        DeviceTool::Fastboot => DeviceType::Fastboot,
    };
    let first: usize = match tool {
        DeviceTool::Adb => 1,
        DeviceTool::Fastboot => 0,
    };
    let ghost all = lines(cs@);
    let mut r: Vec<DeviceInfo> = Vec::new();
    assert(all.len() == ls@.len());
    if ls.len() <= first {
        return r;
    }
    let mut k: usize = first;
    assert(all.skip(first as int).take(0) =~= Seq::<Seq<char>>::empty());
    while k < ls.len()
        invariant
            cs@ == listing@,
            ranges_within(ls@, cs@.len() as int),
            pieces(cs@, ls@) == all,
            all == lines(cs@),
            first <= k <= ls@.len(),
            first as int == heading_lines(tool),
            word@ == ready_word(tool),
            name@ == tool_device_name(tool),
            kind == tool_device_type(tool),
            device_views(r@) == listed_devices(tool, all.skip(first as int).take(k - first)),
        decreases ls@.len() - k,
    {
        let (lo, hi) = ls[k];
        assert(ls@[k as int].0 <= ls@[k as int].1);
        let line = Ghost(cs@.subrange(lo as int, hi as int));
        assert(line@ == all[k as int]);
        let toks = token_ranges(&cs, lo, hi);
        let ghost t = tokens(line@);
        let ghost upto = all.skip(first as int).take(k + 1 - first);
        assert(upto.drop_last() =~= all.skip(first as int).take(k - first));
        assert(upto.last() == line@);
        if toks.len() >= 2 && {
            let (a, b) = toks[1];
            assert(toks@[1].0 <= toks@[1].1);
            assert(t[1] == cs@.subrange(a as int, b as int));
            range_equals(&cs, a, b, word)
        } {
            let (a, b) = toks[0];
            assert(toks@[0].0 <= toks@[0].1);
            assert(t[0] == cs@.subrange(a as int, b as int));
            let serial = listing.substring_char(a, b).to_owned();
            let d = DeviceInfo { device_type: kind, serial, name: String::from_str(name) };
            proof {
                lemma_device_views_push(r@, d);
            }
            r.push(d);
        }
        k = k + 1;
    }
    assert(all.skip(first as int).take(ls@.len() - first) =~= body_lines(tool, listing@));
    r
}

/// The devices that a tool's `devices` output names, or `None` when the
/// output is not UTF-8 text (the tool is then taken not to work).
pub fn parse_device_output(tool: DeviceTool, stdout: &[u8]) -> (r: Option<Vec<DeviceInfo>>)
    ensures
        r is Some <==> vstd::utf8::valid_utf8(stdout@),
        r matches Some(v) ==> device_views(v@) == tool_devices(
            tool,
            vstd::utf8::decode_utf8(stdout@),
        ),
{
    match utf8_text(stdout) {
        Some(t) => Some(parse_device_listing(tool, t.as_str())),
        None => None,
    }
}

// ---------------------------------------------------------------------------
// Finding the tools
// ---------------------------------------------------------------------------

/// The views of a list of strings.
pub open spec fn string_views(v: Seq<String>) -> Seq<Seq<char>> {
    v.map_values(|s: String| s@)
}

/// The usual places of a tool: on Windows its `.exe` and its bare name;
/// elsewhere its bare name and the two usual install directories.
pub open spec fn standard_program_names(tool: DeviceTool, windows: bool) -> Seq<Seq<char>> {
    match tool {
        DeviceTool::Adb => if windows {
            seq!["adb.exe"@, "adb"@]
        } else {
            seq!["adb"@, "/usr/bin/adb"@, "/usr/local/bin/adb"@]
        },
        DeviceTool::Fastboot => if windows {
            seq!["fastboot.exe"@, "fastboot"@]
        } else {
            seq!["fastboot"@, "/usr/bin/fastboot"@, "/usr/local/bin/fastboot"@]
        },
    }
}

/// `names` without the entries equal to `x`, in order.
pub open spec fn without(names: Seq<Seq<char>>, x: Seq<char>) -> Seq<Seq<char>>
    decreases names.len(),
{
    if names.len() == 0 {
        seq![]
    } else {
        let before = without(names.drop_last(), x);
        if names.last() == x {
            before
        } else {
            before.push(names.last())
        }
    }
}

/// Where a tool is looked for when devices are detected, in the order
/// tried: the configured path first when one is set, then the usual places,
/// none of them twice.
pub open spec fn probe_program_names(
    tool: DeviceTool,
    configured: Seq<char>,
    windows: bool,
) -> Seq<Seq<char>> {
    if configured.len() == 0 {
        standard_program_names(tool, windows)
    } else {
        seq![configured] + without(standard_program_names(tool, windows), configured)
    }
}

/// The program of a tool: the configured path, or the tool's bare name
/// when the configured path is empty.
pub fn tool_program(tool: DeviceTool, configured: &str) -> (r: String)
    ensures
        r@ == reboot_program(tool, configured@),
{
    if configured.is_empty() {
        match tool {
            DeviceTool::Adb => String::from_str("adb"),
            DeviceTool::Fastboot => String::from_str("fastboot"),
        }
    } else {
        configured.to_owned()
    }
}

/// The usual places of a tool.
fn standard_programs(tool: DeviceTool, windows: bool) -> (r: Vec<String>)
    ensures
        string_views(r@) == standard_program_names(tool, windows),
{
    let mut r: Vec<String> = Vec::new();
    match tool {
        DeviceTool::Adb => {
            if windows {
                r.push(String::from_str("adb.exe"));
                r.push(String::from_str("adb"));
            } else {
                r.push(String::from_str("adb"));
                r.push(String::from_str("/usr/bin/adb"));
                r.push(String::from_str("/usr/local/bin/adb"));
            }
        },
        DeviceTool::Fastboot => {
            if windows {
                r.push(String::from_str("fastboot.exe"));
                r.push(String::from_str("fastboot"));
            } else {
                r.push(String::from_str("fastboot"));
                r.push(String::from_str("/usr/bin/fastboot"));
                r.push(String::from_str("/usr/local/bin/fastboot"));
            }
        },
    }
    assert(string_views(r@) =~= standard_program_names(tool, windows));
    r
}

/// The programs tried, in order, to list a tool's devices: the configured
/// path first when one is set, then the usual places; the first whose output
/// is UTF-8 text is the one whose listing counts (see [`first_listing`]).
pub fn probe_programs(tool: DeviceTool, configured: &str, windows: bool) -> (r: Vec<String>)
    ensures
        string_views(r@) == probe_program_names(tool, configured@, windows),
{
    let standard = standard_programs(tool, windows);
    if configured.is_empty() {
        return standard;
    }
    let first = configured.to_owned();
    let ghost sv = string_views(standard@);
    let mut r: Vec<String> = Vec::new();
    r.push(first.clone());
    let mut k: usize = 0;
    assert(sv.take(0) =~= Seq::<Seq<char>>::empty());
    assert(string_views(r@) =~= seq![first@] + without(sv.take(0), first@));
    while k < standard.len()
        invariant
            k <= standard@.len(),
            sv == string_views(standard@),
            string_views(r@) == seq![first@] + without(sv.take(k as int), first@),
        decreases standard@.len() - k,
    {
        let ghost upto = sv.take(k + 1);
        assert(upto.drop_last() =~= sv.take(k as int));
        assert(upto.last() == standard@[k as int]@);
        if !(standard[k] == first) {
            let c = standard[k].clone();
            let ghost before = string_views(r@);
            r.push(c);
            assert(string_views(r@) =~= before.push(c@));
            assert(without(upto, first@) == without(sv.take(k as int), first@).push(sv[k as int]));
            assert(string_views(r@) =~= seq![first@] + without(upto, first@));
        }
        k = k + 1;
    }
    assert(sv.take(standard@.len() as int) =~= sv);
    r
}

// ---------------------------------------------------------------------------
// Rebooting into EDL mode
// ---------------------------------------------------------------------------

/// A tool's bare program name.
pub open spec fn default_program(tool: DeviceTool) -> Seq<char> {
    match tool {
        DeviceTool::Adb => "adb"@,
        DeviceTool::Fastboot => "fastboot"@,
    }
}

/// The program run to reboot a device: the configured path, or the tool's
/// bare name when the configured path is empty.
pub open spec fn reboot_program(tool: DeviceTool, configured: Seq<char>) -> Seq<char> {
    if configured.len() == 0 {
        default_program(tool)
    } else {
        configured
    }
}

/// The arguments that reboot the device `serial` into EDL mode:
/// `-s <serial> reboot edl` for adb, `-s <serial> oem edl` for fastboot.
pub open spec fn reboot_args(tool: DeviceTool, serial: Seq<char>) -> Seq<Seq<char>> {
    match tool {
        DeviceTool::Adb => seq!["-s"@, serial, "reboot"@, "edl"@],
        DeviceTool::Fastboot => seq!["-s"@, serial, "oem"@, "edl"@],
    }
}

/// The start of the error message when a reboot command fails.
pub open spec fn failure_prefix(tool: DeviceTool) -> Seq<char> {
    match tool {
        DeviceTool::Adb => "ADB command failed: "@,
        DeviceTool::Fastboot => "Fastboot command failed: "@,
    }
}

/// A command line that reboots one device into EDL mode.
pub struct RebootCommand {
    pub tool: DeviceTool,
    pub program: String,
    pub args: Vec<String>,
}

impl RebootCommand {
    /// The command that reboots the device `serial` into EDL mode with the
    /// tool found at `tool_path` (its bare name when the path is empty).
    pub fn new(tool: DeviceTool, tool_path: &str, serial: &str) -> (r: RebootCommand)
        ensures
            r.tool == tool,
            r.program@ == reboot_program(tool, tool_path@),
            string_views(r.args@) == reboot_args(tool, serial@),
    {
        let program = tool_program(tool, tool_path);
        let mut args: Vec<String> = Vec::new();
        args.push(String::from_str("-s"));
        args.push(serial.to_owned());
        match tool {
            DeviceTool::Adb => args.push(String::from_str("reboot")),
            DeviceTool::Fastboot => args.push(String::from_str("oem")),
        }
        args.push(String::from_str("edl"));
        assert(string_views(args@) =~= reboot_args(tool, serial@));
        RebootCommand { tool, program, args }
    }

    /// What became of the command, given whether it exited successfully and
    /// what it wrote to its error stream: `Ok` on success, else the message
    /// "<Tool> command failed: " followed by the error output (invalid UTF-8
    /// replaced).
    pub fn outcome(&self, success: bool, stderr: &[u8]) -> (r: Result<(), String>)
        ensures
            success ==> r is Ok,
            !success ==> (r matches Err(m) && m@ == failure_prefix(self.tool) + utf8_lossy(
                stderr@,
            )),
    {
        if success {
            return Ok(());
        }
        let mut m = match self.tool {
            DeviceTool::Adb => String::from_str("ADB command failed: "),
            DeviceTool::Fastboot => String::from_str("Fastboot command failed: "),
        };
        let err = utf8_lossy_text(stderr);
        m.append(err.as_str());
        Err(m)
    }
}

// ---------------------------------------------------------------------------
// Detection
// ---------------------------------------------------------------------------

/// A device found on USB whose descriptor could be read, with the product
/// string that could be read from it, if any.
pub struct UsbDevice {
    pub vendor_id: u16,
    pub product_id: u16,
    pub product: Option<String>,
}

/// What a [`UsbDevice`] holds, as values.
pub struct UsbView {
    pub vendor_id: u16,
    pub product_id: u16,
    pub product: Option<Seq<char>>,
}

impl View for UsbDevice {
    type V = UsbView;

    open spec fn view(&self) -> UsbView {
        UsbView {
            vendor_id: self.vendor_id,
            product_id: self.product_id,
            product: match self.product {
                Some(p) => Some(p@),
                None => None,
            },
        }
    }
}

/// The views of a list of USB devices.
pub open spec fn usb_views(v: Seq<UsbDevice>) -> Seq<UsbView> {
    v.map_values(|u: UsbDevice| u@)
}

/// The record of a USB device in EDL mode.
pub open spec fn edl_record(u: UsbView) -> DeviceView {
    DeviceView {
        device_type: DeviceType::EDL,
        serial: edl_serial(u.vendor_id, u.product_id, u.product),
        name: "Qualcomm EDL Device"@,
    }
}

/// The EDL devices among USB devices: one record for each device with an
/// EDL id, in the order of the bus; no other device gives one.
pub open spec fn edl_listing(usb: Seq<UsbView>) -> Seq<DeviceView>
    decreases usb.len(),
{
    if usb.len() == 0 {
        seq![]
    } else {
        let before = edl_listing(usb.drop_last());
        let u = usb.last();
        if is_edl_id(u.vendor_id, u.product_id) {
            before.push(edl_record(u))
        } else {
            before
        }
    }
}

/// The EDL devices among the USB devices found.
pub fn edl_devices(usb: &Vec<UsbDevice>) -> (r: Vec<DeviceInfo>)
    ensures
        device_views(r@) == edl_listing(usb_views(usb@)),
{
    let ghost uv = usb_views(usb@);
    let mut r: Vec<DeviceInfo> = Vec::new();
    let mut k: usize = 0;
    assert(uv.take(0) =~= Seq::<UsbView>::empty());
    while k < usb.len()
        invariant
            k <= usb@.len(),
            uv == usb_views(usb@),
            device_views(r@) == edl_listing(uv.take(k as int)),
        decreases usb@.len() - k,
    {
        let u = &usb[k];
        let ghost upto = uv.take(k + 1);
        assert(upto.drop_last() =~= uv.take(k as int));
        assert(upto.last() == u@);
        if is_edl_usb_id(u.vendor_id, u.product_id) {
            let product = match &u.product {
                Some(p) => Some(p.as_str()),
                None => None,
            };
            let d = edl_device_info(u.vendor_id, u.product_id, product);
            proof {
                lemma_device_views_push(r@, d);
            }
            r.push(d);
        }
        k = k + 1;
    }
    assert(uv.take(usb@.len() as int) =~= uv);
    r
}

/// The views of the outputs of a tool's attempts: the bytes it wrote, or
/// `None` where the program could not be run.
pub open spec fn attempt_views(a: Seq<Option<Vec<u8>>>) -> Seq<Option<Seq<u8>>> {
    a.map_values(
        |o: Option<Vec<u8>>|
            match o {
                Some(b) => Some(b@),
                None => None,
            },
    )
}

/// An attempt that settles detection: the program ran and wrote UTF-8 text.
pub open spec fn settles(attempt: Option<Seq<u8>>) -> bool {
    attempt matches Some(b) && vstd::utf8::valid_utf8(b)
}

/// The devices of a tool's attempts, tried in order: those of the first
/// attempt that settles detection, or none if no attempt does.
pub open spec fn first_listing_devices(
    tool: DeviceTool,
    attempts: Seq<Option<Seq<u8>>>,
) -> Seq<DeviceView>
    decreases attempts.len(),
{
    if attempts.len() == 0 {
        seq![]
    } else if settles(attempts[0]) {
        tool_devices(tool, vstd::utf8::decode_utf8(attempts[0]->0))
    } else {
        first_listing_devices(tool, attempts.drop_first())
    }
}

/// Whether an attempt settles detection: the program ran and wrote UTF-8
/// text. Later programs need not be tried then.
pub fn listing_settled(attempt: &Option<Vec<u8>>) -> (r: bool)
    ensures
        r == settles(
            match attempt {
                Some(b) => Some(b@),
                None => None,
            },
        ),
{
    match attempt {
        Some(b) => utf8_text(b.as_slice()).is_some(),
        None => false,
    }
}

/// The devices of a tool, given the outputs of its attempts in the order
/// tried: only the first attempt that wrote UTF-8 text counts.
pub fn first_listing(tool: DeviceTool, attempts: &Vec<Option<Vec<u8>>>) -> (r: Vec<DeviceInfo>)
    ensures
        device_views(r@) == first_listing_devices(tool, attempt_views(attempts@)),
{
    let ghost av = attempt_views(attempts@);
    let mut k: usize = 0;
    assert(av.skip(0) =~= av);
    while k < attempts.len()
        invariant
            k <= attempts@.len(),
            av == attempt_views(attempts@),
            first_listing_devices(tool, av) == first_listing_devices(tool, av.skip(k as int)),
        decreases attempts@.len() - k,
    {
        assert(av.skip(k as int)[0] == av[k as int]);
        if let Some(b) = &attempts[k] {
            if let Some(v) = parse_device_output(tool, b.as_slice()) {
                return v;
            }
        }
        assert(av.skip(k as int).drop_first() =~= av.skip(k + 1));
        k = k + 1;
    }
    Vec::new()
}

/// All detected devices: those in EDL mode on USB first, then those that
/// adb lists, then those that fastboot lists, each group in its own order.
pub open spec fn detected(
    usb: Seq<UsbView>,
    adb_attempts: Seq<Option<Seq<u8>>>,
    fastboot_attempts: Seq<Option<Seq<u8>>>,
) -> Seq<DeviceView> {
    edl_listing(usb) + first_listing_devices(DeviceTool::Adb, adb_attempts)
        + first_listing_devices(DeviceTool::Fastboot, fastboot_attempts)
}

/// All detected devices, given the USB devices found and the outputs of the
/// adb and fastboot attempts.
pub fn detect_devices(
    usb: &Vec<UsbDevice>,
    adb_attempts: &Vec<Option<Vec<u8>>>,
    fastboot_attempts: &Vec<Option<Vec<u8>>>,
) -> (r: Vec<DeviceInfo>)
    ensures
        device_views(r@) == detected(
            usb_views(usb@),
            attempt_views(adb_attempts@),
            attempt_views(fastboot_attempts@),
        ),
{
    let mut r = edl_devices(usb);
    let mut adb = first_listing(DeviceTool::Adb, adb_attempts);
    let mut fastboot = first_listing(DeviceTool::Fastboot, fastboot_attempts);
    let ghost (e, a, f) = (r@, adb@, fastboot@);
    r.append(&mut adb);
    r.append(&mut fastboot);
    assert(device_views(r@) =~= device_views(e) + device_views(a) + device_views(f));
    r
}

/// A record that a detector makes: an EDL device named "Qualcomm EDL
/// Device", an ADB device named "Android Device", or a Fastboot device named
/// "Fastboot Device".
pub open spec fn well_named(d: DeviceView) -> bool {
    ||| d.device_type == DeviceType::EDL && d.name == "Qualcomm EDL Device"@
    ||| d.device_type == DeviceType::ADB && d.name == "Android Device"@
    ||| d.device_type == DeviceType::Fastboot && d.name == "Fastboot Device"@
}

/// The place of a mode in the detected list.
pub open spec fn mode_rank(t: DeviceType) -> int {
    match t {
        DeviceType::EDL => 0,
        DeviceType::ADB => 1,
        DeviceType::Fastboot => 2,
    }
}

proof fn lemma_edl_listing_shape(usb: Seq<UsbView>)
    ensures
        forall|k: int|
            0 <= k < edl_listing(usb).len() ==> (#[trigger] edl_listing(usb)[k]).device_type
                == DeviceType::EDL && edl_listing(usb)[k].name == "Qualcomm EDL Device"@,
    decreases usb.len(),
{
    if usb.len() > 0 {
        lemma_edl_listing_shape(usb.drop_last());
    }
}

proof fn lemma_first_listing_shape(tool: DeviceTool, attempts: Seq<Option<Seq<u8>>>)
    ensures
        forall|k: int|
            0 <= k < first_listing_devices(tool, attempts).len() ==> (#[trigger] first_listing_devices(
                tool,
                attempts,
            )[k]).device_type == tool_device_type(tool) && first_listing_devices(
                tool,
                attempts,
            )[k].name == tool_device_name(tool),
    decreases attempts.len(),
{
    if attempts.len() > 0 {
        if settles(attempts[0]) {
            lemma_listed_serials_are_words(tool, vstd::utf8::decode_utf8(attempts[0]->0));
        } else {
            lemma_first_listing_shape(tool, attempts.drop_first());
        }
    }
}

/// Every detected device is named after the detector that found it, and the
/// list holds the EDL devices first, then the ADB ones, then the Fastboot
/// ones.
pub proof fn lemma_detected_devices_grouped_and_named(
    usb: Seq<UsbView>,
    adb_attempts: Seq<Option<Seq<u8>>>,
    fastboot_attempts: Seq<Option<Seq<u8>>>,
)
    ensures
        forall|k: int|
            0 <= k < detected(usb, adb_attempts, fastboot_attempts).len() ==> well_named(
                #[trigger] detected(usb, adb_attempts, fastboot_attempts)[k],
            ),
        forall|i: int, j: int|
            0 <= i < j < detected(usb, adb_attempts, fastboot_attempts).len() ==> mode_rank(
                (#[trigger] detected(usb, adb_attempts, fastboot_attempts)[i]).device_type,
            ) <= mode_rank((#[trigger] detected(usb, adb_attempts, fastboot_attempts)[j]).device_type),
{
    let e = edl_listing(usb);
    let a = first_listing_devices(DeviceTool::Adb, adb_attempts);
    let f = first_listing_devices(DeviceTool::Fastboot, fastboot_attempts);
    let all = detected(usb, adb_attempts, fastboot_attempts);
    lemma_edl_listing_shape(usb);
    lemma_first_listing_shape(DeviceTool::Adb, adb_attempts);
    lemma_first_listing_shape(DeviceTool::Fastboot, fastboot_attempts);
    assert forall|k: int| 0 <= k < all.len() implies mode_rank(all[k].device_type) == (if k
        < e.len() {
        0int
    } else if k < e.len() + a.len() {
        1int
    } else {
        2int
    }) && well_named(#[trigger] all[k]) by {
        if k < e.len() {
            assert(all[k] == e[k]);
        } else if k < e.len() + a.len() {
            assert(all[k] == a[k - e.len()]);
        } else {
            assert(all[k] == f[k - e.len() - a.len()]);
        }
    }
    assert forall|i: int, j: int| 0 <= i < j < all.len() implies mode_rank(
        (#[trigger] all[i]).device_type,
    ) <= mode_rank((#[trigger] all[j]).device_type) by {
        assert(well_named(all[i]));
        assert(well_named(all[j]));
    }
}

// ---------------------------------------------------------------------------
// Laws of detection
// ---------------------------------------------------------------------------

/// The serial of an EDL device is what follows the first `"_SN:"` of its
/// product string: for a product string `x + "_SN:" + y` where `"_SN:"`
/// starts nowhere before the marker after `x`, the serial is `y`.
pub proof fn lemma_edl_serial_follows_first_marker(
    vendor_id: u16,
    product_id: u16,
    x: Seq<char>,
    y: Seq<char>,
)
    requires
        forall|j: int| 0 <= j < x.len() ==> !occurs_at(x + "_SN:"@, "_SN:"@, j),
    ensures
        edl_serial(vendor_id, product_id, Some(x + "_SN:"@ + y)) == y,
{
    let m = "_SN:"@;
    let p = x + m + y;
    let i = x.len() as int;
    assert(p.subrange(i, i + m.len()) =~= m);
    assert forall|j: int| 0 <= j < i implies !occurs_at(p, m, j) by {
        if occurs_at(p, m, j) {
            assert(p.subrange(j, j + m.len()) =~= (x + m).subrange(j, j + m.len()));
            assert(occurs_at(x + m, m, j));
        }
    }
    assert(is_first_occurrence(p, m, i));
    let k = choose|k: int| is_first_occurrence(p, m, k);
    lemma_first_occurrence_unique(p, m, i, k);
    assert(p.skip(i + m.len()) =~= y);
}

/// Without a `"_SN:"` in the product string, or without a product string,
/// the serial of an EDL device is its vendor and product ids as
/// `vvvv:pppp`: nine characters, the fifth a colon.
pub proof fn lemma_edl_serial_without_marker(vendor_id: u16, product_id: u16, p: Seq<char>)
    requires
        forall|j: int| !occurs_at(p, "_SN:"@, j),
    ensures
        edl_serial(vendor_id, product_id, Some(p)) == hex4(vendor_id) + seq![':'] + hex4(
            product_id,
        ),
        edl_serial(vendor_id, product_id, None) == hex4(vendor_id) + seq![':'] + hex4(product_id),
        edl_serial(vendor_id, product_id, None).len() == 9,
        edl_serial(vendor_id, product_id, None)[4] == ':',
{
}

/// The first listing of a tool is that of its first attempt that wrote
/// UTF-8 text, whatever the attempts before it wrote (when they wrote no
/// text) and whatever the attempts after it wrote; with no such attempt it
/// is empty.
pub proof fn lemma_first_listing_is_first_text(
    tool: DeviceTool,
    attempts: Seq<Option<Seq<u8>>>,
    k: int,
)
    requires
        0 <= k <= attempts.len(),
        forall|j: int| 0 <= j < k ==> !settles(#[trigger] attempts[j]),
    ensures
        k < attempts.len() && settles(attempts[k]) ==> first_listing_devices(tool, attempts)
            == tool_devices(tool, vstd::utf8::decode_utf8(attempts[k]->0)),
        k == attempts.len() ==> first_listing_devices(tool, attempts) == Seq::<DeviceView>::empty(),
    decreases k,
{
    if k > 0 {
        assert forall|j: int| 0 <= j < k - 1 implies !settles(#[trigger] attempts.drop_first()[j]) by {
            assert(attempts.drop_first()[j] == attempts[j + 1]);
        }
        lemma_first_listing_is_first_text(tool, attempts.drop_first(), k - 1);
        if k < attempts.len() {
            assert(attempts.drop_first()[k - 1] == attempts[k]);
        }
    }
}

/// The detected list holds the EDL group, the adb group and the fastboot
/// group one after the other, each whole: its length is the sum of theirs,
/// and each group is what its own detector found.
pub proof fn lemma_detected_groups(
    usb: Seq<UsbView>,
    adb_attempts: Seq<Option<Seq<u8>>>,
    fastboot_attempts: Seq<Option<Seq<u8>>>,
)
    ensures
        ({
            let all = detected(usb, adb_attempts, fastboot_attempts);
            let e = edl_listing(usb);
            let a = first_listing_devices(DeviceTool::Adb, adb_attempts);
            let f = first_listing_devices(DeviceTool::Fastboot, fastboot_attempts);
            &&& all.len() == e.len() + a.len() + f.len()
            &&& all.take(e.len() as int) == e
            &&& all.subrange(e.len() as int, e.len() + a.len() as int) == a
            &&& all.skip(e.len() + a.len() as int) == f
        }),
{
    let all = detected(usb, adb_attempts, fastboot_attempts);
    let e = edl_listing(usb);
    let a = first_listing_devices(DeviceTool::Adb, adb_attempts);
    let f = first_listing_devices(DeviceTool::Fastboot, fastboot_attempts);
    assert(all.take(e.len() as int) =~= e);
    assert(all.subrange(e.len() as int, e.len() + a.len() as int) =~= a);
    assert(all.skip(e.len() + a.len() as int) =~= f);
}

/// The fastboot devices that are detected do not depend on what adb lists:
/// with the same USB devices and fastboot attempts, the lists detected for
/// any two sets of adb attempts end with the same fastboot group, which has
/// the fastboot listing's length.
pub proof fn lemma_fastboot_group_ignores_adb(
    usb: Seq<UsbView>,
    adb_attempts1: Seq<Option<Seq<u8>>>,
    adb_attempts2: Seq<Option<Seq<u8>>>,
    fastboot_attempts: Seq<Option<Seq<u8>>>,
)
    ensures
        ({
            let d1 = detected(usb, adb_attempts1, fastboot_attempts);
            let d2 = detected(usb, adb_attempts2, fastboot_attempts);
            let n = first_listing_devices(DeviceTool::Fastboot, fastboot_attempts).len();
            &&& n <= d1.len() && n <= d2.len()
            &&& d1.skip(d1.len() - n as int) == d2.skip(d2.len() - n as int)
        }),
{
    lemma_detected_groups(usb, adb_attempts1, fastboot_attempts);
    lemma_detected_groups(usb, adb_attempts2, fastboot_attempts);
}

proof fn lemma_listed_one_line(tool: DeviceTool, l: Seq<char>)
    ensures
        listed_devices(tool, seq![l]) == match line_device(tool, l) {
            Some(d) => seq![d],
            None => Seq::<DeviceView>::empty(),
        },
{
    assert(seq![l].drop_last() =~= Seq::<Seq<char>>::empty());
    assert(seq![l].last() == l);
    assert(listed_devices(tool, Seq::<Seq<char>>::empty()) == Seq::<DeviceView>::empty());
    if let Some(d) = line_device(tool, l) {
        assert(Seq::<DeviceView>::empty().push(d) =~= seq![d]);
    }
}

/// A fastboot listing whose only line is a serial, a tab and "fastboot"
/// names exactly that device, as a Fastboot device.
pub proof fn lemma_fastboot_line_names_its_device(serial: Seq<char>)
    requires
        is_word(serial),
    ensures
        tool_devices(DeviceTool::Fastboot, serial + seq!['\t'] + "fastboot"@) == seq![
            DeviceView {
                device_type: DeviceType::Fastboot,
                serial: serial,
                name: "Fastboot Device"@,
            },
        ],
{
    reveal_strlit("fastboot");
    let w = "fastboot"@;
    assert(is_word(w));
    let l = serial + seq!['\t'] + w;
    assert(is_white_space('\t'));
    lemma_tokens_of_two_words(serial, '\t', w);
    assert forall|j: int| 0 <= j < l.len() implies l[j] != '\n' by {
        if j < serial.len() {
            assert(l[j] == serial[j]);
        } else if j > serial.len() {
            assert(l[j] == w[j - serial.len() - 1]);
        }
    }
    lemma_lines_of_one_line(l);
    assert(lines(l).skip(0) =~= seq![l]);
    lemma_listed_one_line(DeviceTool::Fastboot, l);
}

/// An adb listing made of a heading line and one line with a serial, a tab
/// and "device" names exactly that device, as an ADB device; the heading
/// never names one.
pub proof fn lemma_adb_line_names_its_device(heading: Seq<char>, serial: Seq<char>)
    requires
        forall|j: int| 0 <= j < heading.len() ==> heading[j] != '\n',
        is_word(serial),
    ensures
        tool_devices(DeviceTool::Adb, heading + seq!['\n'] + (serial + seq!['\t'] + "device"@))
            == seq![
            DeviceView { device_type: DeviceType::ADB, serial: serial, name: "Android Device"@ },
        ],
{
    reveal_strlit("device");
    let w = "device"@;
    assert(is_word(w));
    let l = serial + seq!['\t'] + w;
    assert(is_white_space('\t'));
    lemma_tokens_of_two_words(serial, '\t', w);
    assert forall|j: int| 0 <= j < l.len() implies l[j] != '\n' by {
        if j < serial.len() {
            assert(l[j] == serial[j]);
        } else if j > serial.len() {
            assert(l[j] == w[j - serial.len() - 1]);
        }
    }
    lemma_lines_of_two_lines(heading, l);
    let ls = lines(heading + seq!['\n'] + l);
    assert(ls.skip(1) =~= seq![l]);
    lemma_listed_one_line(DeviceTool::Adb, l);
}

} // verus!
