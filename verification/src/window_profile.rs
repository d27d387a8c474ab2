//! What the front end is told about the window system: the platform, and on
//! Windows its version and whether it is Windows 10 or Windows 11 (or newer).
//! The version itself is read from the system outside the library.
use vstd::prelude::*;
use crate::text::to_owned;

verus! {

/// The first Windows build number of Windows 11.
pub const WINDOWS_11_FIRST_BUILD: u32 = 22000;

/// The window system as the front end sees it.
#[derive(Debug, Clone)]
pub struct WindowSurfacePlatformProfile {
    pub platform: String,
    pub major_version: Option<u32>,
    pub minor_version: Option<u32>,
    pub build_number: Option<u32>,
    pub is_windows: bool,
    pub is_windows_10: bool,
    pub is_windows_11_or_newer: bool,
}

/// The profile of platform `platform`; on Windows (`is_windows`) with the
/// version (major, minor, build) when it could be read. Windows 10 has major
/// version 10 and a build before Windows 11's first; Windows 11 reports
/// major version 10 too, from that build on.
pub fn window_surface_platform_profile(
    platform: &str,
    is_windows: bool,
    windows_version: Option<(u32, u32, u32)>,
) -> (r: WindowSurfacePlatformProfile)
    ensures
        r.platform@ == (if is_windows {
            "windows"@
        } else {
            platform@
        }),
        r.is_windows == is_windows,
        match (is_windows, windows_version) {
            (true, Some((major, minor, build))) => {
                &&& r.major_version == Some(major)
                &&& r.minor_version == Some(minor)
                &&& r.build_number == Some(build)
                &&& r.is_windows_10 == (major == 10 && build < WINDOWS_11_FIRST_BUILD)
                &&& r.is_windows_11_or_newer == (major > 10 || (major == 10 && build >= WINDOWS_11_FIRST_BUILD))
            },
            _ => {
                &&& r.major_version is None
                &&& r.minor_version is None
                &&& r.build_number is None
                &&& !r.is_windows_10
                &&& !r.is_windows_11_or_newer
            },
        },
{
    if !is_windows {
        return WindowSurfacePlatformProfile {
            platform: to_owned(platform),
            major_version: None,
            minor_version: None,
            build_number: None,
            is_windows: false,
            is_windows_10: false,
            is_windows_11_or_newer: false,
        };
    }
    match windows_version {
        Some((major, minor, build)) => WindowSurfacePlatformProfile {
            platform: to_owned("windows"),
            major_version: Some(major),
            minor_version: Some(minor),
            build_number: Some(build),
            is_windows: true,
            is_windows_10: major == 10 && build < WINDOWS_11_FIRST_BUILD,
            is_windows_11_or_newer: major > 10 || (major == 10 && build >= WINDOWS_11_FIRST_BUILD),
        },
        None => WindowSurfacePlatformProfile {
            platform: to_owned("windows"),
            major_version: None,
            minor_version: None,
            build_number: None,
            is_windows: true,
            is_windows_10: false,
            is_windows_11_or_newer: false,
        },
    }
}

} // verus!
