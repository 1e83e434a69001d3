# qdl_gui

A graphical tool that finds Qualcomm devices (in EDL mode on USB, or listed
by `adb` and `fastboot`), reboots them into EDL mode, and starts flash runs
from a ROM directory.

- `src/` is the library, verified with Verus: parsing of the device listings,
  recognition of EDL devices and their serials, reboot command lines and their
  outcomes, the default and remembered settings, the selection and ordering
  of flash files, and the decisions of the window (log length, device labels,
  "Switch to EDL", "Start Flash").
- `app/` is the program around it: the egui window, USB enumeration, running
  `adb`/`fastboot`, reading the ROM directory, and the JSON settings file.
- `tests/` runs the library on concrete inputs.
