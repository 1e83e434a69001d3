//! The settings kept between sessions: where adb and fastboot are, and the
//! loader, ROM directory and storage type chosen last.
use std::path::PathBuf;

use vstd::prelude::*;

verus! {

/// Makes `std::path::PathBuf` known to Verus, which sees nothing inside a
/// path and only carries paths through.
#[verifier::external_type_specification]
#[verifier::external_body]
pub struct ExPathBuf(PathBuf);

/// The settings kept between sessions.
#[derive(Debug, Clone)]
pub struct AppConfig {
    pub adb_path: String,
    pub fastboot_path: String,
    pub last_loader_path: Option<PathBuf>,
    pub last_rom_directory: Option<PathBuf>,
    pub last_storage_type: String,
}

/// The path separator of the platform the program was built for.
///
/// Trusted: reads `std::path::MAIN_SEPARATOR`. Nothing is claimed of the
/// value, which depends on the platform.
#[verifier::external_body]
fn main_separator() -> char {
    std::path::MAIN_SEPARATOR
}

/// Whether `sep` is the path separator of Windows, the backslash.
pub fn is_windows_separator(sep: char) -> (r: bool)
    ensures
        r == (sep == '\\'),
{
    sep == '\\'
}

/// Whether the program was built for Windows, whose path separator is the
/// backslash: [`is_windows_separator`] of the platform's path separator,
/// which the platform decides and which is not known to the proofs.
pub fn host_is_windows() -> bool {
    is_windows_separator(main_separator())
}

impl AppConfig {
    /// The settings a first session starts with on a platform: adb and
    /// fastboot looked up by name (with `.exe` on Windows), no loader or ROM
    /// directory chosen yet, UFS storage.
    pub open spec fn is_fresh(self, windows: bool) -> bool {
        &&& self.adb_path@ == (if windows {
            "adb.exe"@
        } else {
            "adb"@
        })
        &&& self.fastboot_path@ == (if windows {
            "fastboot.exe"@
        } else {
            "fastboot"@
        })
        &&& self.last_loader_path is None
        &&& self.last_rom_directory is None
        &&& self.last_storage_type@ == "ufs"@
    }

    /// The settings a first session starts with on the given platform.
    pub fn for_platform(windows: bool) -> (r: AppConfig)
        ensures
            r.is_fresh(windows),
    {
        let adb_path = if windows {
            String::from_str("adb.exe")
        } else {
            String::from_str("adb")
        };
        let fastboot_path = if windows {
            String::from_str("fastboot.exe")
        } else {
            String::from_str("fastboot")
        };
        AppConfig {
            adb_path,
            fastboot_path,
            last_loader_path: None,
            last_rom_directory: None,
            last_storage_type: String::from_str("ufs"),
        }
    }

    /// The settings a first session starts with on the platform whose path
    /// separator is `sep`: that of Windows when it is the backslash.
    pub fn for_separator(sep: char) -> (r: AppConfig)
        ensures
            r.is_fresh(sep == '\\'),
    {
        AppConfig::for_platform(is_windows_separator(sep))
    }

    /// Records the choices of the session that ends, leaving the tool paths
    /// as they are.
    pub fn remember_session(
        &mut self,
        loader_path: Option<PathBuf>,
        rom_directory: Option<PathBuf>,
        storage_type: String,
    )
        ensures
            final(self).adb_path == old(self).adb_path,
            final(self).fastboot_path == old(self).fastboot_path,
            final(self).last_loader_path == loader_path,
            final(self).last_rom_directory == rom_directory,
            final(self).last_storage_type == storage_type,
    {
        self.last_loader_path = loader_path;
        self.last_rom_directory = rom_directory;
        self.last_storage_type = storage_type;
    }
}

impl Default for AppConfig {
    /// The settings a first session starts with on the platform the program
    /// was built for.
    fn default() -> (r: AppConfig)
        ensures
            r.is_fresh(true) || r.is_fresh(false),
    {
        AppConfig::for_separator(main_separator())
    }
}

} // verus!
