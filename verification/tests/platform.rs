//! Operating-system families and the library version.

use local_transfer_core::platform::Platform;
use local_transfer_core::version;

#[test]
fn supported_target_values_map_to_bounded_platforms() {
    assert_eq!(Platform::from_target_os("macos"), Ok(Platform::MacOs));
    assert_eq!(Platform::from_target_os("windows"), Ok(Platform::Windows));
    assert_eq!(Platform::from_target_os("linux"), Ok(Platform::Linux));
}

#[test]
fn supported_platforms_have_stable_internal_representations() {
    assert_eq!(Platform::MacOs.as_str(), "macos");
    assert_eq!(Platform::Windows.as_str(), "windows");
    assert_eq!(Platform::Linux.as_str(), "linux");
}

#[test]
fn unsupported_target_is_an_explicit_error() {
    let error = Platform::from_target_os("freebsd").unwrap_err();

    assert_eq!(error, error.clone());
    assert_eq!(error.target_os(), "freebsd");
    assert_eq!(error.message(), "unsupported operating-system target: freebsd");
}

#[test]
fn platform_texts_lead_back_to_their_platform() {
    for platform in [Platform::MacOs, Platform::Windows, Platform::Linux] {
        assert_eq!(Platform::from_target_os(platform.as_str()), Ok(platform));
    }
    assert!(Platform::from_target_os("Linux").is_err());
    assert!(Platform::from_target_os("").is_err());
}

#[test]
fn reports_package_version() {
    assert_eq!(version(), "0.1.0");
}
