//! Device discovery, command construction and session decisions for a
//! graphical flashing tool for Qualcomm devices in emergency download (EDL)
//! mode.
//!
//! - [`text`]: lines, words, search, ordering and number formatting of text.
//! - [`device`]: device kinds, recognising devices on USB and in the listings
//!   of adb and fastboot, and the commands that reboot them into EDL mode.
//! - [`config`]: the settings kept between sessions.
//! - [`flasher`]: which files of a ROM directory a flash run uses, and what
//!   it reports.
//! - [`session`]: the log, how devices are shown, and what the window's
//!   buttons do with the current choices.
pub mod config;
pub mod device;
pub mod flasher;
pub mod session;
pub mod text;
