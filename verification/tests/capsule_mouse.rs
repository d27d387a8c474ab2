use ofplayer::window_profile::window_surface_platform_profile;
use ofplayer::capsule_mouse::{
    is_inside_rounded_region, next_ignore_cursor_state, CapsuleMappedRegion, CapsuleMouseMapState,
};

fn region() -> CapsuleMappedRegion {
    CapsuleMappedRegion {
        left: 10,
        top: 4,
        right: 550,
        collapsed_bottom: 56,
        expanded_bottom: 84,
    }
}

#[test]
fn rounded_bar_excludes_its_corners() {
    let r = region();
    assert!(is_inside_rounded_region(r, 280, 30, false));
    assert!(!is_inside_rounded_region(r, 280, 70, false));
    assert!(is_inside_rounded_region(r, 280, 70, true));
    assert!(!is_inside_rounded_region(r, 10, 4, false));
    assert!(is_inside_rounded_region(r, 12, 30, false));
    assert!(!is_inside_rounded_region(r, 5, 30, false));
    assert!(!is_inside_rounded_region(r, 549, 5, false));
    assert!(is_inside_rounded_region(r, 549, 30, false));
}

#[test]
fn hovering_extends_the_interactive_area() {
    let mut state = CapsuleMouseMapState {
        region: region(),
        expanded: false,
        hovering: false,
        ignore_cursor_events: None,
    };
    assert_eq!(next_ignore_cursor_state(&mut state, 1280, 70, 1000, 0), (Some(true), 28));
    assert!(!state.hovering);
    assert_eq!(next_ignore_cursor_state(&mut state, 1280, 30, 1000, 0), (Some(false), 16));
    assert!(state.hovering);
    assert_eq!(next_ignore_cursor_state(&mut state, 1280, 70, 1000, 0), (None, 16));
    assert!(state.hovering);
    assert_eq!(next_ignore_cursor_state(&mut state, 1280, 200, 1000, 0), (Some(true), 28));
    assert!(!state.hovering);
    assert_eq!(next_ignore_cursor_state(&mut state, i32::MIN, 0, i32::MAX, 0), (None, 28));
}

#[test]
fn window_profiles_tell_windows_versions_apart() {
    let ten = window_surface_platform_profile("windows", true, Some((10, 0, 19045)));
    assert!(ten.is_windows_10 && !ten.is_windows_11_or_newer);
    assert_eq!(ten.build_number, Some(19045));
    let eleven = window_surface_platform_profile("windows", true, Some((10, 0, 22631)));
    assert!(!eleven.is_windows_10 && eleven.is_windows_11_or_newer);
    let unknown = window_surface_platform_profile("windows", true, None);
    assert!(unknown.is_windows && !unknown.is_windows_10 && unknown.major_version.is_none());
    let linux = window_surface_platform_profile("linux", false, Some((10, 0, 1)));
    assert_eq!(linux.platform, "linux");
    assert!(!linux.is_windows && linux.build_number.is_none());
}
